//! What a recalculation comes to: every formula agrees with its value, and only formulas that
//! hang on the changed cell were changed.

use crate::cells::{FormulaModel, FormulasModel};
use crate::coord::Key;
use crate::deps::CellsModel;
use crate::engine;
use crate::engine::{DependentsModel, EngineModel};
use crate::entries;
use crate::eval;
use crate::eval::{CtxModel, Outcome, Res};
use crate::recalc;
use crate::recalc::{Answers, Bounds, Keys};
use vstd::prelude::*;

verus! {

/// The value of a formula over the given cells.
pub open spec fn value_over(
    f: FormulaModel,
    sheet: Seq<char>,
    cells: CellsModel,
    answers: Answers,
    fuel: nat,
) -> Res<Seq<char>> {
    eval::formula_value(f.formula, CtxModel { sheet, cells, answers }, fuel)
}

/// Whether the value of a formula hangs on no other cells than those that it is said to
/// depend on.
pub open spec fn reads_only_its_cells(
    f: FormulaModel,
    sheet: Seq<char>,
    answers: Answers,
    fuel: nat,
) -> bool {
    forall|cells: CellsModel, k: Key<Seq<char>>, v: Seq<char>|
        !f.deps.contains(k) ==> #[trigger] value_over(
            f,
            sheet,
            entries::put(cells, k, v),
            answers,
            fuel,
        ) == value_over(f, sheet, cells, answers, fuel)
}

/// Whether every formula is among the dependents of each cell that it depends on.
pub open spec fn linked(formulas: FormulasModel, dependents: DependentsModel) -> bool {
    forall|k: Key<Seq<char>>, d: Key<Seq<char>>|
        depends(formulas, k, d) ==> #[trigger] engine::dependents_of(dependents, d).contains(k)
}

/// Whether a cell has a formula that depends on another cell.
pub open spec fn depends(formulas: FormulasModel, k: Key<Seq<char>>, d: Key<Seq<char>>) -> bool {
    entries::get(formulas, k) matches Some(f) && f.deps.contains(d)
}

/// Whether the formulas are such that working out what depends on a changed cell reaches
/// all that changes: they read only their cells, do not depend on themselves, and are found
/// from the cells that they depend on.
pub open spec fn traceable(
    formulas: FormulasModel,
    dependents: DependentsModel,
    answers: Answers,
    fuel: nat,
) -> bool {
    &&& linked(formulas, dependents)
    &&& forall|k: Key<Seq<char>>| (#[trigger] entries::get(formulas, k)) matches Some(f) ==> {
        &&& reads_only_its_cells(f, k.sheet, answers, fuel)
        &&& !f.deps.contains(k)
    }
}

/// Whether the value that is kept for a formula is the value of the formula, but for the form
/// of a number.
pub open spec fn agrees(m: EngineModel, k: Key<Seq<char>>, answers: Answers, fuel: nat) -> bool {
    recalc::formula_cell_value(m, k, answers, fuel) matches Outcome::Value(value) && eval::differ(
        recalc::context(m, k.sheet, answers),
        engine::value_or_empty(m.cells, k),
        value,
    ) == Res::<bool>::Value(false)
}

/// Whether every formula agrees with its value but those of a list.
pub open spec fn all_agree_but(m: EngineModel, rest: Keys, answers: Answers, fuel: nat) -> bool {
    forall|k: Key<Seq<char>>|
        entries::get(m.formulas, k) is Some ==> #[trigger] agrees(m, k, answers, fuel)
            || rest.contains(k)
}

/// Whether every formula agrees with its value or waits to be looked at.
spec fn none_forgotten(m: EngineModel, queue: Keys, seen: Keys, answers: Answers, fuel: nat) -> bool {
    forall|k: Key<Seq<char>>|
        entries::get(m.formulas, k) is Some ==> #[trigger] agrees(m, k, answers, fuel) || (
        queue.contains(k) && !seen.contains(k))
}

proof fn lemma_without<T>(s: Seq<T>, x: T, y: T)
    ensures
        !entries::without(s, x).contains(x),
        entries::without(s, x).contains(y) ==> s.contains(y),
    decreases s.len(),
{
    if s.len() > 0 {
        lemma_without(s.drop_last(), x, y);
        let rest = entries::without(s.drop_last(), x);
        let all = entries::without(s, x);
        if all.contains(x) {
            let i = choose|i: int| 0 <= i < all.len() && all[i] == x;
            if s.last() != x {
                assert(i < rest.len());
            }
            assert(rest.contains(x));
        }
        if all.contains(y) {
            let i = choose|i: int| 0 <= i < all.len() && all[i] == y;
            if s.last() != x && i == rest.len() {
                assert(s[s.len() - 1] == y);
            } else {
                assert(rest[i] == y);
                assert(s.drop_last().contains(y));
                let j = choose|j: int| 0 <= j < s.drop_last().len() && s.drop_last()[j] == y;
                assert(s[j] == y);
            }
        }
    }
}

proof fn lemma_without_each(s: Keys, gone: Keys, y: Key<Seq<char>>)
    ensures
        recalc::without_each(s, gone).contains(y) ==> s.contains(y) && !gone.contains(y),
    decreases gone.len(),
{
    if gone.len() > 0 {
        let done = recalc::without_each(s, gone.drop_last());
        lemma_without_each(s, gone.drop_last(), y);
        lemma_without(done, gone.last(), y);
        if recalc::without_each(s, gone).contains(y) && gone.contains(y) {
            let i = choose|i: int| 0 <= i < gone.len() && gone[i] == y;
            if i < gone.len() - 1 {
                assert(gone.drop_last()[i] == y);
            }
        }
    }
}

proof fn lemma_with<T>(s: Seq<T>, x: T, y: T)
    ensures
        entries::with(s, x).contains(y) <==> s.contains(y) || x == y,
{
    let all = entries::with(s, x);
    if s.contains(y) {
        let i = choose|i: int| 0 <= i < s.len() && s[i] == y;
        assert(all[i] == y);
    }
    if !s.contains(x) {
        assert(all[s.len() as int] == x);
        if all.contains(y) && x != y {
            let i = choose|i: int| 0 <= i < all.len() && all[i] == y;
            assert(s[i] == y);
        }
    }
}

proof fn lemma_still_waiting(queue: Keys, more: Keys, k: Key<Seq<char>>)
    requires
        queue.len() > 0,
    ensures
        queue.contains(k) && k != queue[0] ==> queue.skip(1).contains(k),
        queue.contains(k) && k != queue[0] ==> (queue.skip(1) + more).contains(k),
        more.contains(k) ==> (queue.skip(1) + more).contains(k),
{
    let rest = queue.skip(1);
    if queue.contains(k) && k != queue[0] {
        let i = choose|i: int| 0 <= i < queue.len() && queue[i] == k;
        assert(rest[i - 1] == k);
        assert((rest + more)[i - 1] == k);
    }
    if more.contains(k) {
        let i = choose|i: int| 0 <= i < more.len() && more[i] == k;
        assert((rest + more)[rest.len() + i] == k);
    }
}

/// A value put into a cell leaves a formula that does not depend on the cell as it was.
proof fn lemma_others_agree(
    m: EngineModel,
    next: EngineModel,
    at: Key<Seq<char>>,
    value: Seq<char>,
    k: Key<Seq<char>>,
    answers: Answers,
    fuel: nat,
)
    requires
        next.cells == entries::put(m.cells, at, value),
        next.formulas == m.formulas,
        entries::get(m.formulas, k) matches Some(f) && reads_only_its_cells(
            f,
            k.sheet,
            answers,
            fuel,
        ) && !f.deps.contains(at),
    ensures
        recalc::formula_cell_value(next, k, answers, fuel) == recalc::formula_cell_value(
            m,
            k,
            answers,
            fuel,
        ),
        k != at && agrees(m, k, answers, fuel) ==> agrees(next, k, answers, fuel),
{
    let f = entries::get(m.formulas, k)->Some_0;
    assert(value_over(f, k.sheet, entries::put(m.cells, at, value), answers, fuel) == value_over(
        f,
        k.sheet,
        m.cells,
        answers,
        fuel,
    ));
    entries::law_get_after_put(m.cells, at, value, k);
}

proof fn lemma_changed_formula(
    m: EngineModel,
    source: Key<Seq<char>>,
    k: Key<Seq<char>>,
    value: Seq<char>,
    queue: Keys,
    seen: Keys,
    answers: Answers,
    fuel: nat,
)
    requires
        queue.len() > 0,
        k == queue[0],
        traceable(m.formulas, m.dependents, answers, fuel),
        none_forgotten(m, queue, seen, answers, fuel),
        recalc::formula_cell_value(m, k, answers, fuel) == Res::<Seq<char>>::Value(value),
        eval::differ(
            recalc::context(m, k.sheet, answers),
            engine::value_or_empty(m.cells, k),
            value,
        ) is Value,
    ensures
        ({
            let more = engine::dependents_of(m.dependents, k);
            none_forgotten(
                recalc::recalculated(m, k, value, recalc::dependence(source)),
                queue.skip(1) + more,
                recalc::without_each(entries::with(seen, k), more),
                answers,
                fuel,
            )
        }),
{
    let next = recalc::recalculated(m, k, value, recalc::dependence(source));
    let more = engine::dependents_of(m.dependents, k);
    let left = recalc::without_each(entries::with(seen, k), more);
    assert forall|j: Key<Seq<char>>|
        entries::get(next.formulas, j) is Some implies #[trigger] agrees(next, j, answers, fuel)
        || ((queue.skip(1) + more).contains(j) && !left.contains(j)) by {
        let f = entries::get(m.formulas, j)->Some_0;
        lemma_without_each(entries::with(seen, k), more, j);
        lemma_with(seen, k, j);
        lemma_still_waiting(queue, more, j);
        if f.deps.contains(k) {
            assert(depends(m.formulas, j, k));
            assert(more.contains(j));
        } else {
            lemma_others_agree(m, next, k, value, j, answers, fuel);
            if j == k {
                entries::law_get_after_put(m.cells, k, value, k);
                assert(agrees(next, k, answers, fuel));
            } else {
                assert(agrees(m, j, answers, fuel) || (queue.contains(j) && !seen.contains(j)));
            }
        }
    }
}

proof fn lemma_recalculation_agrees(
    m: EngineModel,
    source: Key<Seq<char>>,
    queue: Keys,
    seen: Keys,
    changed: Keys,
    answers: Answers,
    fuel: nat,
    steps: nat,
)
    requires
        traceable(m.formulas, m.dependents, answers, fuel),
        none_forgotten(m, queue, seen, answers, fuel),
        recalc::recalc(m, source, queue, seen, changed, answers, fuel, steps).1 is Value,
    ensures
        all_agree_but(
            recalc::recalc(m, source, queue, seen, changed, answers, fuel, steps).0,
            Seq::empty(),
            answers,
            fuel,
        ),
    decreases steps,
{
    if queue.len() > 0 {
        let k = queue[0];
        let rest = queue.skip(1);
        let left = (steps - 1) as nat;
        if seen.contains(k) {
            assert forall|j: Key<Seq<char>>|
                entries::get(m.formulas, j) is Some implies #[trigger] agrees(m, j, answers, fuel)
                || (rest.contains(j) && !seen.contains(j)) by {
                lemma_still_waiting(queue, Seq::empty(), j);
            }
            lemma_recalculation_agrees(m, source, rest, seen, changed, answers, fuel, left);
        } else {
            let value = recalc::formula_cell_value(m, k, answers, fuel)->Value_0;
            let differs = eval::differ(
                recalc::context(m, k.sheet, answers),
                engine::value_or_empty(m.cells, k),
                value,
            );
            if differs == Res::<bool>::Value(true) {
                let more = engine::dependents_of(m.dependents, k);
                lemma_changed_formula(m, source, k, value, queue, seen, answers, fuel);
                lemma_recalculation_agrees(
                    recalc::recalculated(m, k, value, recalc::dependence(source)),
                    source,
                    rest + more,
                    recalc::without_each(entries::with(seen, k), more),
                    changed.push(k),
                    answers,
                    fuel,
                    left,
                );
            } else {
                assert(agrees(m, k, answers, fuel));
                assert forall|j: Key<Seq<char>>|
                    entries::get(m.formulas, j) is Some implies #[trigger] agrees(
                    m,
                    j,
                    answers,
                    fuel,
                ) || (rest.contains(j) && !entries::with(seen, k).contains(j)) by {
                    lemma_still_waiting(queue, Seq::empty(), j);
                    lemma_with(seen, k, j);
                }
                lemma_recalculation_agrees(
                    m,
                    source,
                    rest,
                    entries::with(seen, k),
                    changed,
                    answers,
                    fuel,
                    left,
                );
            }
        }
    }
}

/// Where every formula that does not depend on a cell agrees with its value, working out what
/// depends on the cell, once it has come to an end, leaves every formula in agreement.
pub proof fn law_recalculated_formulas_agree(
    m: EngineModel,
    source: Key<Seq<char>>,
    answers: Answers,
    fuel: nat,
    steps: nat,
)
    requires
        traceable(m.formulas, m.dependents, answers, fuel),
        all_agree_but(m, engine::dependents_of(m.dependents, source), answers, fuel),
        recalc::recalc_from(m, source, answers, fuel, steps).1 is Value,
    ensures
        all_agree_but(
            recalc::recalc_from(m, source, answers, fuel, steps).0,
            Seq::empty(),
            answers,
            fuel,
        ),
{
    lemma_recalculation_agrees(
        m,
        source,
        engine::dependents_of(m.dependents, source),
        Seq::empty(),
        Seq::empty(),
        answers,
        fuel,
        steps,
    );
}

/// Where every formula agrees with its value, a value put into a cell without a formula leaves
/// every formula in agreement.
pub proof fn law_updates_keep_formulas_in_agreement(
    m: EngineModel,
    k: Key<Seq<char>>,
    value: Seq<char>,
    reason: Seq<char>,
    answers: Answers,
    b: Bounds,
)
    requires
        traceable(m.formulas, m.dependents, answers, b.fuel as nat),
        all_agree_but(m, Seq::empty(), answers, b.fuel as nat),
        entries::get(m.formulas, k) is None,
        recalc::updated(m, k, value, reason, answers, b).1 is Value,
    ensures
        all_agree_but(
            recalc::updated(m, k, value, reason, answers, b).0,
            Seq::empty(),
            answers,
            b.fuel as nat,
        ),
{
    let next = recalc::with_input(m, k, value, reason);
    let waiting = engine::dependents_of(next.dependents, k);
    let fuel = b.fuel as nat;
    assert forall|j: Key<Seq<char>>|
        entries::get(next.formulas, j) is Some implies #[trigger] agrees(next, j, answers, fuel)
        || waiting.contains(j) by {
        let f = entries::get(m.formulas, j)->Some_0;
        assert(agrees(m, j, answers, fuel));
        if f.deps.contains(k) {
            assert(depends(m.formulas, j, k));
        } else {
            lemma_others_agree(m, next, k, value, j, answers, fuel);
        }
    }
    law_recalculated_formulas_agree(next, k, answers, fuel, b.steps as nat);
}

// ----- Links -----

proof fn lemma_with_dependent(
    d: DependentsModel,
    list: Keys,
    k: Key<Seq<char>>,
    at: Key<Seq<char>>,
    who: Key<Seq<char>>,
)
    ensures
        engine::dependents_of(engine::with_dependent(d, list, k), at).contains(who)
            <==> engine::dependents_of(d, at).contains(who) || (who == k && list.contains(at)),
    decreases list.len(),
{
    if list.len() > 0 {
        lemma_with_dependent(d, list.drop_last(), k, at, who);
        let done = engine::with_dependent(d, list.drop_last(), k);
        let known = engine::dependents_of(done, list.last());
        entries::law_get_after_put(done, list.last(), entries::with(known, k), at);
        lemma_with(known, k, who);
        if list.contains(at) {
            let i = choose|i: int| 0 <= i < list.len() && list[i] == at;
            if i < list.len() - 1 {
                assert(list.drop_last()[i] == at);
            }
        }
        if list.drop_last().contains(at) {
            let i = choose|i: int| 0 <= i < list.drop_last().len() && list.drop_last()[i] == at;
            assert(list[i] == at);
        }
        assert(list[list.len() - 1] == list.last());
    }
}

/// Whether a formula of a list depends on a cell.
spec fn stands_for(formulas: FormulasModel, i: int, who: Key<Seq<char>>, at: Key<Seq<char>>) -> bool {
    formulas[i].0 == who && formulas[i].1.deps.contains(at)
}

proof fn lemma_all_dependents(formulas: FormulasModel, at: Key<Seq<char>>, who: Key<Seq<char>>)
    ensures
        engine::dependents_of(engine::all_dependents(formulas), at).contains(who) <==> exists|i: int|
            0 <= i < formulas.len() && #[trigger] stands_for(formulas, i, who, at),
    decreases formulas.len(),
{
    if formulas.len() > 0 {
        let rest = formulas.drop_last();
        lemma_all_dependents(rest, at, who);
        lemma_with_dependent(
            engine::all_dependents(rest),
            formulas.last().1.deps,
            formulas.last().0,
            at,
            who,
        );
        if exists|i: int| 0 <= i < rest.len() && #[trigger] stands_for(rest, i, who, at) {
            let i = choose|i: int| 0 <= i < rest.len() && #[trigger] stands_for(rest, i, who, at);
            assert(stands_for(formulas, i, who, at));
        }
        if exists|i: int| 0 <= i < formulas.len() && #[trigger] stands_for(formulas, i, who, at) {
            let i = choose|i: int|
                0 <= i < formulas.len() && #[trigger] stands_for(formulas, i, who, at);
            if i < rest.len() {
                assert(stands_for(rest, i, who, at));
            }
        }
        if who == formulas.last().0 && formulas.last().1.deps.contains(at) {
            assert(stands_for(formulas, formulas.len() - 1, who, at));
        }
    }
}

/// The links of a shadow whose links were worked out anew lead from each cell to just the
/// formulas that depend on it.
pub proof fn law_links_lead_to_what_depends(m: EngineModel, k: Key<Seq<char>>, d: Key<Seq<char>>)
    requires
        m.wf(),
    ensures
        engine::dependents_of(engine::rebuilt(m).dependents, d).contains(k) <==> depends(
            engine::rebuilt(m).formulas,
            k,
            d,
        ),
        linked(engine::rebuilt(m).formulas, engine::rebuilt(m).dependents),
{
    reveal(EngineModel::once_each);
    let formulas = engine::rebuilt(m).formulas;
    assert forall|i: int, j: int| 0 <= i < j < formulas.len() implies (#[trigger] formulas[i]).0
        != (#[trigger] formulas[j]).0 by {
        assert(m.formulas[i].0 != m.formulas[j].0);
    }
    assert forall|k: Key<Seq<char>>, d: Key<Seq<char>>|
        #[trigger] engine::dependents_of(engine::rebuilt(m).dependents, d).contains(k)
            <==> depends(formulas, k, d) by {
        lemma_all_dependents(formulas, d, k);
        entries::lemma_place(formulas, k);
        if depends(formulas, k, d) {
            let i = entries::place(formulas, k)->Some_0;
            assert(stands_for(formulas, i, k, d));
        }
    }
}

// ----- What is changed -----

/// Whether a cell hangs on another by way of at most `n` dependents.
pub open spec fn hangs_within(
    dependents: DependentsModel,
    source: Key<Seq<char>>,
    k: Key<Seq<char>>,
    n: nat,
) -> bool
    decreases n,
{
    n > 0 && exists|via: Key<Seq<char>>|
        #![trigger engine::dependents_of(dependents, via)]
        engine::dependents_of(dependents, via).contains(k) && (via == source || hangs_within(
            dependents,
            source,
            via,
            (n - 1) as nat,
        ))
}

/// Whether a cell hangs on another, directly or by way of others.
pub open spec fn hangs_on(dependents: DependentsModel, source: Key<Seq<char>>, k: Key<Seq<char>>) -> bool {
    exists|n: nat| hangs_within(dependents, source, k, n)
}

pub open spec fn all_hang_on(dependents: DependentsModel, source: Key<Seq<char>>, list: Keys) -> bool {
    forall|i: int| 0 <= i < list.len() ==> hangs_on(dependents, source, #[trigger] list[i])
}

/// Whether the cells of a list have formulas, hang on a cell and are marked as changed.
pub open spec fn rightly_changed(m: EngineModel, source: Key<Seq<char>>, list: Keys) -> bool {
    forall|i: int|
        0 <= i < list.len() ==> {
            &&& entries::get(m.formulas, #[trigger] list[i]) is Some
            &&& hangs_on(m.dependents, source, list[i])
            &&& m.dirty.contains(list[i])
        }
}

proof fn lemma_dependents_hang(dependents: DependentsModel, source: Key<Seq<char>>, k: Key<Seq<char>>)
    requires
        k == source || hangs_on(dependents, source, k),
    ensures
        all_hang_on(dependents, source, engine::dependents_of(dependents, k)),
{
    let list = engine::dependents_of(dependents, k);
    let n: nat = if k == source {
        0
    } else {
        choose|n: nat| hangs_within(dependents, source, k, n)
    };
    assert forall|i: int| 0 <= i < list.len() implies hangs_on(
        dependents,
        source,
        #[trigger] list[i],
    ) by {
        assert(engine::dependents_of(dependents, k).contains(list[i]));
        assert(hangs_within(dependents, source, list[i], n + 1));
    }
}

proof fn lemma_changed_hang(
    m: EngineModel,
    source: Key<Seq<char>>,
    queue: Keys,
    seen: Keys,
    changed: Keys,
    answers: Answers,
    fuel: nat,
    steps: nat,
)
    requires
        all_hang_on(m.dependents, source, queue),
        rightly_changed(m, source, changed),
    ensures
        ({
            let r = recalc::recalc(m, source, queue, seen, changed, answers, fuel, steps);
            r.1 matches Outcome::Value(list) ==> rightly_changed(r.0, source, list)
        }),
    decreases steps,
{
    if queue.len() > 0 && steps > 0 {
        let k = queue[0];
        let rest = queue.skip(1);
        let left = (steps - 1) as nat;
        assert forall|i: int| 0 <= i < rest.len() implies hangs_on(
            m.dependents,
            source,
            #[trigger] rest[i],
        ) by {
            assert(rest[i] == queue[i + 1]);
        }
        if seen.contains(k) {
            lemma_changed_hang(m, source, rest, seen, changed, answers, fuel, left);
        } else if let Outcome::Value(value) = recalc::formula_cell_value(m, k, answers, fuel) {
            let next = recalc::recalculated(m, k, value, recalc::dependence(source));
            let more = engine::dependents_of(m.dependents, k);
            lemma_dependents_hang(m.dependents, source, k);
            let all = rest + more;
            assert forall|i: int| 0 <= i < all.len() implies hangs_on(
                m.dependents,
                source,
                #[trigger] all[i],
            ) by {
                if i < rest.len() {
                    assert(all[i] == rest[i]);
                } else {
                    assert(all[i] == more[i - rest.len()]);
                }
            }
            let longer = changed.push(k);
            assert forall|i: int| 0 <= i < longer.len() implies {
                &&& entries::get(next.formulas, #[trigger] longer[i]) is Some
                &&& hangs_on(next.dependents, source, longer[i])
                &&& next.dirty.contains(longer[i])
            } by {
                lemma_with(m.dirty, k, longer[i]);
                if i < changed.len() {
                    assert(longer[i] == changed[i]);
                }
            }
            lemma_changed_hang(
                next,
                source,
                all,
                recalc::without_each(entries::with(seen, k), more),
                longer,
                answers,
                fuel,
                left,
            );
            lemma_changed_hang(
                m,
                source,
                rest,
                entries::with(seen, k),
                changed,
                answers,
                fuel,
                left,
            );
        }
    }
}

/// The cells that working out what depends on a cell tells of have formulas, hang on the cell,
/// and are marked as changed.
pub proof fn law_changed_cells_hang_on_the_source(
    m: EngineModel,
    source: Key<Seq<char>>,
    answers: Answers,
    fuel: nat,
    steps: nat,
)
    ensures
        ({
            let r = recalc::recalc_from(m, source, answers, fuel, steps);
            r.1 matches Outcome::Value(list) ==> rightly_changed(r.0, source, list)
        }),
{
    lemma_dependents_hang(m.dependents, source, source);
    lemma_changed_hang(
        m,
        source,
        engine::dependents_of(m.dependents, source),
        Seq::empty(),
        Seq::empty(),
        answers,
        fuel,
        steps,
    );
}

} // verus!
