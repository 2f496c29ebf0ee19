//! Evaluations and requests that have come to an end: more answers and wider bounds do not
//! change what they came to.

use crate::calls;
use crate::coord::Key;
use crate::deps;
use crate::engine;
use crate::engine::EngineModel;
use crate::entries;
use crate::eval;
use crate::eval::{Args, AskModel, CtxModel, Func, Outcome, Reply, Res};
use crate::pattern;
use crate::ranges;
use crate::recalc;
use crate::recalc::{Answers, Bounds, Keys};
use crate::text;
use vstd::prelude::*;

verus! {

/// Whether every answer of a list stands in another list too.
pub open spec fn answers_grow(a: Answers, b: Answers) -> bool {
    forall|x: AskModel|
        (#[trigger] entries::get(a, x)) is Some ==> entries::get(b, x) == entries::get(a, x)
}

/// Whether a context is another with more answers.
pub open spec fn grows(c: CtxModel, d: CtxModel) -> bool {
    &&& c.sheet == d.sheet
    &&& c.cells == d.cells
    &&& answers_grow(c.answers, d.answers)
}

/// Whether an outcome is the same as an earlier one, if that one was a value or an error.
pub open spec fn stays<T>(before: Res<T>, after: Res<T>) -> bool {
    recalc::is_over(before) ==> after == before
}

/// An answer keeps those that were there just where its question had none, or had the same.
pub proof fn law_answers_are_kept(a: Answers, ask: AskModel, reply: Reply<Seq<char>>)
    ensures
        answers_grow(a, entries::put(a, ask, reply)) <==> (entries::get(a, ask) is None
            || entries::get(a, ask) == Some(reply)),
{
    assert forall|x: AskModel| entries::get(entries::put(a, ask, reply), x) == if x == ask {
        Some(reply)
    } else {
        entries::get(a, x)
    } by {
        entries::law_get_after_put(a, ask, reply, x);
    }
}

// ----- Expressions without calls -----

proof fn lemma_refs_stay(
    c: CtxModel,
    d: CtxModel,
    hits: Seq<(Seq<char>, Seq<Option<Seq<char>>>)>,
)
    requires
        grows(c, d),
    ensures
        stays(eval::refs_in_hits(c, hits), eval::refs_in_hits(d, hits)),
    decreases hits.len(),
{
    if hits.len() > 0 {
        lemma_refs_stay(c, d, hits.drop_last());
    }
}

proof fn lemma_settled_stays(c: CtxModel, d: CtxModel, expr: Seq<char>)
    requires
        grows(c, d),
    ensures
        stays(eval::settled(c, expr), eval::settled(d, expr)),
        stays(eval::settled_number(c, expr), eval::settled_number(d, expr)),
{
    lemma_refs_stay(c, d, pattern::scan(eval::REF_PATTERN@, expr).0);
}

proof fn lemma_aggregate_values(c: CtxModel, d: CtxModel, args: Args)
    requires
        grows(c, d),
    ensures
        eval::aggregate_values(c, args) == eval::aggregate_values(d, args),
    decreases args.len(),
{
    if args.len() > 0 {
        lemma_aggregate_values(c, d, args.drop_last());
    }
}

proof fn lemma_aggregate_stays(f: Func, c: CtxModel, d: CtxModel, args: Args)
    requires
        grows(c, d),
    ensures
        stays(eval::aggregate(f, c, args), eval::aggregate(f, d, args)),
{
    lemma_aggregate_values(c, d, args);
}

proof fn lemma_compared_stays(c: CtxModel, d: CtxModel, value: Seq<char>, op: Seq<char>, rhs: Seq<char>)
    requires
        grows(c, d),
    ensures
        stays(eval::compared(c, value, op, rhs), eval::compared(d, value, op, rhs)),
{
}

proof fn lemma_pairs_stay(c: CtxModel, d: CtxModel, args: Args, from: int, n: int, idx: int)
    requires
        grows(c, d),
    ensures
        stays(
            eval::pairs_met(c, args, from, n, idx),
            eval::pairs_met(d, args, from, n, idx),
        ),
    decreases n,
{
    if n > 0 {
        lemma_pairs_stay(c, d, args, from, n - 1, idx);
    }
}

proof fn lemma_met_values_stay(
    c: CtxModel,
    d: CtxModel,
    args: Args,
    from: int,
    pairs: int,
    sums: deps::CellsModel,
    n: int,
)
    requires
        grows(c, d),
    ensures
        stays(
            eval::met_values(c, args, from, pairs, sums, n),
            eval::met_values(d, args, from, pairs, sums, n),
        ),
    decreases n,
{
    if n > 0 {
        lemma_met_values_stay(c, d, args, from, pairs, sums, n - 1);
        lemma_pairs_stay(c, d, args, from, pairs, n - 1);
    }
}

proof fn lemma_conditional_stays(f: Func, args: Args, c: CtxModel, d: CtxModel)
    requires
        grows(c, d),
    ensures
        stays(eval::conditional_value(f, args, c), eval::conditional_value(f, args, d)),
{
    let n = args.len() as int;
    let first = ranges::values_in(args[0], c.sheet, c.cells);
    let third = ranges::values_in(args[2], c.sheet, c.cells);
    lemma_met_values_stay(c, d, args, 1, (n - 1) / 2, first, first.len() as int);
    lemma_met_values_stay(c, d, args, 0, 1, third, first.len() as int);
    lemma_met_values_stay(c, d, args, 0, 1, first, first.len() as int);
    lemma_met_values_stay(c, d, args, 0, n / 2, first, first.len() as int);
}

// ----- Calls -----

proof fn lemma_formula_stays(s: Seq<char>, c: CtxModel, d: CtxModel, fuel: nat, more: nat)
    requires
        grows(c, d),
        fuel <= more,
    ensures
        stays(eval::formula_value(s, c, fuel), eval::formula_value(s, d, more)),
    decreases fuel, 0nat,
{
    if fuel > 0 {
        let expr = text::drop_leading(text::trim(s), '=');
        lemma_staged_stays(
            eval::formula_stages(),
            expr,
            c,
            d,
            (fuel - 1) as nat,
            (more - 1) as nat,
        );
        if let Outcome::Value(e) = eval::staged(eval::formula_stages(), expr, c, (fuel - 1) as nat) {
            lemma_settled_stays(c, d, e);
        }
    }
}

proof fn lemma_staged_stays(
    stages: Seq<Func>,
    expr: Seq<char>,
    c: CtxModel,
    d: CtxModel,
    fuel: nat,
    more: nat,
)
    requires
        grows(c, d),
        fuel <= more,
    ensures
        stays(eval::staged(stages, expr, c, fuel), eval::staged(stages, expr, d, more)),
    decreases fuel, stages.len(),
{
    if stages.len() > 0 && fuel > 0 {
        lemma_staged_stays(stages.drop_last(), expr, c, d, fuel, more);
        if let Outcome::Value(e) = eval::staged(stages.drop_last(), expr, c, fuel) {
            if stages.last() == Func::Amp {
                lemma_amp_stays(e, c, d, (fuel - 1) as nat, (more - 1) as nat);
            } else {
                lemma_calls_stay(stages.last(), e, c, d, (fuel - 1) as nat, (more - 1) as nat);
            }
        }
    }
}

proof fn lemma_calls_stay(
    f: Func,
    expr: Seq<char>,
    c: CtxModel,
    d: CtxModel,
    fuel: nat,
    more: nat,
)
    requires
        grows(c, d),
        fuel <= more,
    ensures
        stays(eval::calls_value(f, expr, c, fuel), eval::calls_value(f, expr, d, more)),
    decreases fuel, 0nat,
{
    if fuel > 0 {
        if let Some(call) = calls::call_in(expr, eval::func_name(f)) {
            let args = calls::parts(calls::call_args(expr, call), ',');
            let (less, rest) = ((fuel - 1) as nat, (more - 1) as nat);
            lemma_call_stays(f, args, c, d, less, rest);
            if let Outcome::Value(t) = eval::call_value(f, args, c, less) {
                lemma_calls_stay(f, calls::call_replaced(expr, call, t), c, d, less, rest);
            }
        }
    }
}

proof fn lemma_amp_stays(expr: Seq<char>, c: CtxModel, d: CtxModel, fuel: nat, more: nat)
    requires
        grows(c, d),
        fuel <= more,
    ensures
        stays(eval::amp_value(expr, c, fuel), eval::amp_value(expr, d, more)),
    decreases fuel, 0nat,
{
    if fuel > 0 {
        lemma_texts_stay(calls::operands(expr), c, d, (fuel - 1) as nat, (more - 1) as nat);
    }
}

proof fn lemma_text_stays(arg: Seq<char>, c: CtxModel, d: CtxModel, fuel: nat, more: nat)
    requires
        grows(c, d),
        fuel <= more,
    ensures
        stays(eval::text_value(arg, c, fuel), eval::text_value(arg, d, more)),
    decreases fuel, 0nat,
{
    if fuel > 0 {
        lemma_formula_stays("="@ + text::trim(arg), c, d, (fuel - 1) as nat, (more - 1) as nat);
    }
}

proof fn lemma_texts_stay(args: Args, c: CtxModel, d: CtxModel, fuel: nat, more: nat)
    requires
        grows(c, d),
        fuel <= more,
    ensures
        stays(eval::texts_value(args, c, fuel), eval::texts_value(args, d, more)),
    decreases fuel, args.len(),
{
    if args.len() > 0 && fuel > 0 {
        lemma_texts_stay(args.drop_last(), c, d, fuel, more);
        lemma_text_stays(args.last(), c, d, (fuel - 1) as nat, (more - 1) as nat);
    }
}

proof fn lemma_numeric_stays(arg: Seq<char>, c: CtxModel, d: CtxModel, fuel: nat, more: nat)
    requires
        grows(c, d),
        fuel <= more,
    ensures
        stays(eval::numeric_value(arg, c, fuel), eval::numeric_value(arg, d, more)),
        stays(eval::counted_value(arg, c, fuel), eval::counted_value(arg, d, more)),
    decreases fuel, 0nat,
{
    if fuel > 0 {
        let t = text::trim(arg);
        lemma_staged_stays(
            eval::numeric_stages(),
            t,
            c,
            d,
            (fuel - 1) as nat,
            (more - 1) as nat,
        );
        if let Outcome::Value(e) = eval::staged(eval::numeric_stages(), t, c, (fuel - 1) as nat) {
            lemma_settled_stays(c, d, e);
        }
    }
}

proof fn lemma_condition_stays(s: Seq<char>, c: CtxModel, d: CtxModel, fuel: nat, more: nat)
    requires
        grows(c, d),
        fuel <= more,
    ensures
        stays(eval::condition_value(s, c, fuel), eval::condition_value(s, d, more)),
    decreases fuel, 0nat,
{
    if fuel > 0 {
        let (less, rest) = ((fuel - 1) as nat, (more - 1) as nat);
        match eval::condition_sides(s) {
            Some((left, op, right)) => {
                lemma_text_stays(left, c, d, less, rest);
                lemma_text_stays(right, c, d, less, rest);
                let a = eval::text_value(left, c, less);
                let b = eval::text_value(right, c, less);
                if a is Value && b is Value {
                    lemma_compared_stays(c, d, a->Value_0, op, b->Value_0);
                }
            },
            None => {
                lemma_numeric_stays(s, c, d, less, rest);
            },
        }
    }
}

proof fn lemma_conditions_stay(args: Args, c: CtxModel, d: CtxModel, fuel: nat, more: nat)
    requires
        grows(c, d),
        fuel <= more,
    ensures
        stays(eval::conditions_value(args, c, fuel), eval::conditions_value(args, d, more)),
    decreases fuel, args.len(),
{
    if args.len() > 0 && fuel > 0 {
        lemma_conditions_stay(args.drop_last(), c, d, fuel, more);
        lemma_condition_stays(args.last(), c, d, (fuel - 1) as nat, (more - 1) as nat);
    }
}

proof fn lemma_call_stays(
    f: Func,
    args: Args,
    c: CtxModel,
    d: CtxModel,
    fuel: nat,
    more: nat,
)
    requires
        grows(c, d),
        fuel <= more,
    ensures
        stays(eval::call_value(f, args, c, fuel), eval::call_value(f, args, d, more)),
    decreases fuel, 0nat,
{
    if fuel > 0 {
        let (less, rest) = ((fuel - 1) as nat, (more - 1) as nat);
        match f {
            Func::Iferror => lemma_iferror_stays(args, c, d, less, rest),
            Func::If => lemma_if_stays(args, c, d, less, rest),
            Func::And | Func::Or | Func::Not => lemma_conditions_stay(args, c, d, less, rest),
            Func::Sumifs | Func::Sumif | Func::Countifs | Func::Countif => {
                lemma_conditional_stays(f, args, c, d)
            },
            Func::Vlookup | Func::Index | Func::Match => {
                lemma_lookup_stays(f, args, c, d, less, rest)
            },
            Func::Sum | Func::Average | Func::Max | Func::Min | Func::Count | Func::Counta
            | Func::Countblank => lemma_aggregate_stays(f, c, d, args),
            Func::Round => lemma_round_stays(args, c, d, less, rest),
            Func::Amp => {},
            _ => lemma_text_call_stays(f, args, c, d, less, rest),
        }
    }
}

proof fn lemma_iferror_stays(args: Args, c: CtxModel, d: CtxModel, fuel: nat, more: nat)
    requires
        grows(c, d),
        fuel <= more,
    ensures
        stays(eval::iferror_value(args, c, fuel), eval::iferror_value(args, d, more)),
    decreases fuel, 1nat,
{
    if args.len() == 2 {
        lemma_formula_stays("="@ + args[0], c, d, fuel, more);
        lemma_formula_stays("="@ + args[1], c, d, fuel, more);
    }
}

proof fn lemma_if_stays(args: Args, c: CtxModel, d: CtxModel, fuel: nat, more: nat)
    requires
        grows(c, d),
        fuel <= more,
    ensures
        stays(eval::if_value(args, c, fuel), eval::if_value(args, d, more)),
    decreases fuel, 1nat,
{
    if args.len() == 3 {
        lemma_condition_stays(args[0], c, d, fuel, more);
        lemma_formula_stays("="@ + args[1], c, d, fuel, more);
        lemma_formula_stays("="@ + args[2], c, d, fuel, more);
    }
}

proof fn lemma_lookup_stays(
    f: Func,
    args: Args,
    c: CtxModel,
    d: CtxModel,
    fuel: nat,
    more: nat,
)
    requires
        grows(c, d),
        fuel <= more,
    ensures
        stays(eval::lookup_value(f, args, c, fuel), eval::lookup_value(f, args, d, more)),
    decreases fuel, 2nat,
{
    lemma_text_stays(args[0], c, d, fuel, more);
    lemma_numeric_stays(args[1], c, d, fuel, more);
    lemma_numeric_stays(args[2], c, d, fuel, more);
}

proof fn lemma_round_stays(args: Args, c: CtxModel, d: CtxModel, fuel: nat, more: nat)
    requires
        grows(c, d),
        fuel <= more,
    ensures
        stays(eval::round_value(args, c, fuel), eval::round_value(args, d, more)),
    decreases fuel, 1nat,
{
    lemma_numeric_stays(args[0], c, d, fuel, more);
    lemma_numeric_stays(args[1], c, d, fuel, more);
}

proof fn lemma_text_call_stays(
    f: Func,
    args: Args,
    c: CtxModel,
    d: CtxModel,
    fuel: nat,
    more: nat,
)
    requires
        grows(c, d),
        fuel <= more,
    ensures
        stays(eval::text_call_value(f, args, c, fuel), eval::text_call_value(f, args, d, more)),
    decreases fuel, args.len() + 2,
{
    lemma_text_stays(args[0], c, d, fuel, more);
    lemma_text_stays(args[1], c, d, fuel, more);
    lemma_numeric_stays(args[0], c, d, fuel, more);
    lemma_numeric_stays(args[1], c, d, fuel, more);
    lemma_numeric_stays(args[2], c, d, fuel, more);
    lemma_texts_stay(args, c, d, fuel, more);
    if args.len() >= 3 {
        lemma_texts_stay(args.subrange(2, args.len() as int), c, d, fuel, more);
    }
}

/// A formula that came to a value or an error comes to the same with more answers and with
/// more steps.
pub proof fn law_evaluated_formulas_stay(
    s: Seq<char>,
    c: CtxModel,
    d: CtxModel,
    fuel: nat,
    more: nat,
)
    requires
        grows(c, d),
        fuel <= more,
        recalc::is_over(eval::formula_value(s, c, fuel)),
    ensures
        eval::formula_value(s, d, more) == eval::formula_value(s, c, fuel),
{
    lemma_formula_stays(s, c, d, fuel, more);
}

// ----- Requests -----

/// Whether a request comes to the same shadow and the same answer as before, if it had come
/// to an end before.
pub open spec fn settles<T>(
    before: (EngineModel, Res<T>),
    after: (EngineModel, Res<T>),
) -> bool {
    recalc::is_over(before.1) ==> after == before
}

/// Whether bounds let at least as much be done as others.
pub open spec fn reach(b: Bounds, wider: Bounds) -> bool {
    b.fuel <= wider.fuel && b.steps <= wider.steps
}

proof fn lemma_cell_stays(
    m: EngineModel,
    k: Key<Seq<char>>,
    few: Answers,
    many: Answers,
    fuel: nat,
    more: nat,
)
    requires
        answers_grow(few, many),
        fuel <= more,
    ensures
        stays(
            recalc::formula_cell_value(m, k, few, fuel),
            recalc::formula_cell_value(m, k, many, more),
        ),
{
    if let Some(f) = entries::get(m.formulas, k) {
        lemma_formula_stays(
            f.formula,
            recalc::context(m, k.sheet, few),
            recalc::context(m, k.sheet, many),
            fuel,
            more,
        );
    }
}

proof fn lemma_recalc_settles(
    m: EngineModel,
    source: Key<Seq<char>>,
    queue: Keys,
    seen: Keys,
    changed: Keys,
    few: Answers,
    many: Answers,
    fuel: nat,
    more: nat,
    steps: nat,
    longer: nat,
)
    requires
        answers_grow(few, many),
        fuel <= more,
        steps <= longer,
    ensures
        settles(
            recalc::recalc(m, source, queue, seen, changed, few, fuel, steps),
            recalc::recalc(m, source, queue, seen, changed, many, more, longer),
        ),
    decreases steps,
{
    if queue.len() > 0 && steps > 0 {
        let k = queue[0];
        let rest = queue.skip(1);
        let (left, far) = ((steps - 1) as nat, (longer - 1) as nat);
        if seen.contains(k) {
            lemma_recalc_settles(
                m, source, rest, seen, changed, few, many, fuel, more, left, far,
            );
        } else {
            lemma_cell_stays(m, k, few, many, fuel, more);
            if let Outcome::Value(value) = recalc::formula_cell_value(m, k, few, fuel) {
                let next = recalc::recalculated(m, k, value, recalc::dependence(source));
                let waiting = engine::dependents_of(m.dependents, k);
                let with = entries::with(seen, k);
                lemma_recalc_settles(
                    next,
                    source,
                    rest + waiting,
                    recalc::without_each(with, waiting),
                    changed.push(k),
                    few,
                    many,
                    fuel,
                    more,
                    left,
                    far,
                );
                lemma_recalc_settles(
                    m, source, rest, with, changed, few, many, fuel, more, left, far,
                );
            }
        }
    }
}

/// Putting a value into a cell, once it has come to an end, comes to the same with more
/// answers and wider bounds.
pub proof fn law_finished_updates_stay(
    m: EngineModel,
    k: Key<Seq<char>>,
    value: Seq<char>,
    reason: Seq<char>,
    few: Answers,
    many: Answers,
    b: Bounds,
    wider: Bounds,
)
    requires
        answers_grow(few, many),
        reach(b, wider),
    ensures
        settles(
            recalc::updated(m, k, value, reason, few, b),
            recalc::updated(m, k, value, reason, many, wider),
        ),
{
    let next = recalc::with_input(m, k, value, reason);
    lemma_recalc_settles(
        next,
        k,
        engine::dependents_of(next.dependents, k),
        Seq::empty(),
        Seq::empty(),
        few,
        many,
        b.fuel as nat,
        wider.fuel as nat,
        b.steps as nat,
        wider.steps as nat,
    );
}

/// Setting a formula, once it has come to an end, comes to the same with more answers and
/// wider bounds.
pub proof fn law_finished_formulas_stay(
    m: EngineModel,
    k: Key<Seq<char>>,
    formula: Seq<char>,
    reason: Seq<char>,
    few: Answers,
    many: Answers,
    b: Bounds,
    wider: Bounds,
)
    requires
        answers_grow(few, many),
        reach(b, wider),
    ensures
        settles(
            recalc::formula_applied(m, k, formula, reason, few, b),
            recalc::formula_applied(m, k, formula, reason, many, wider),
        ),
{
    if let Ok(f) = recalc::formula_normalized(formula) {
        let ready = engine::rebuilt(recalc::with_formula(m, k, f));
        lemma_cell_stays(ready, k, few, many, b.fuel as nat, wider.fuel as nat);
        if let Outcome::Value(value) = recalc::formula_cell_value(ready, k, few, b.fuel as nat) {
            let valued = recalc::with_formula_value(ready, k, f, value, reason);
            lemma_recalc_settles(
                valued,
                k,
                engine::dependents_of(valued.dependents, k),
                Seq::empty(),
                Seq::empty(),
                few,
                many,
                b.fuel as nat,
                wider.fuel as nat,
                b.steps as nat,
                wider.steps as nat,
            );
        }
    }
}

/// Putting in the first values of a list, once it has come to an end, comes to the same with
/// more answers and wider bounds.
pub proof fn law_finished_batches_stay(
    m: EngineModel,
    list: Seq<(Key<Seq<char>>, Seq<char>)>,
    few: Answers,
    many: Answers,
    b: Bounds,
    wider: Bounds,
    n: int,
)
    requires
        answers_grow(few, many),
        reach(b, wider),
    ensures
        settles(recalc::batch(m, list, few, b, n), recalc::batch(m, list, many, wider, n)),
    decreases n,
{
    if n > 0 {
        law_finished_batches_stay(m, list, few, many, b, wider, n - 1);
        let done = recalc::batch(m, list, few, b, n - 1);
        let (k, value) = list[n - 1];
        law_finished_updates_stay(
            done.0,
            k,
            value,
            "batch_update"@,
            few,
            many,
            b,
            wider,
        );
    }
}

/// Working out the first formulas of a list, once it has come to an end, comes to the same
/// with more answers and deeper formulas.
pub proof fn law_finished_recalculations_stay(
    m: EngineModel,
    list: Keys,
    reason: Seq<char>,
    few: Answers,
    many: Answers,
    fuel: nat,
    more: nat,
    n: int,
)
    requires
        answers_grow(few, many),
        fuel <= more,
    ensures
        settles(
            recalc::recalc_all(m, list, reason, few, fuel, n),
            recalc::recalc_all(m, list, reason, many, more, n),
        ),
    decreases n,
{
    if n > 0 {
        law_finished_recalculations_stay(m, list, reason, few, many, fuel, more, n - 1);
        let done = recalc::recalc_all(m, list, reason, few, fuel, n - 1);
        lemma_cell_stays(done.0, list[n - 1], few, many, fuel, more);
    }
}

} // verus!
