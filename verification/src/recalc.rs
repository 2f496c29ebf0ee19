//! Changing values and formulas, and working out anew what depends on them.

use crate::cells;
use crate::cells::FormulaCell;
use crate::copies::Copied;
use crate::coord;
use crate::coord::{Key, ShadowError};
use crate::diagnostics::{Fields, ReportModel};
use crate::engine;
use crate::engine::{EngineModel, SheetShadowEngine};
use crate::entries;
use crate::eval;
use crate::eval::{Ask, AskModel, Ctx, CtxModel, Outcome, Reply, Res};
use crate::objects;
use crate::package::Fallible;
use crate::records::{AuditEvent, ShadowMetaRecord};
use crate::text;
use vstd::prelude::*;
use vstd::string::*;

verus! {

pub type Answers = Seq<(AskModel, Reply<Seq<char>>)>;

pub type Keys = Seq<Key<Seq<char>>>;

// ----- One formula -----

pub open spec fn context(m: EngineModel, sheet: Seq<char>, answers: Answers) -> CtxModel {
    CtxModel { sheet, cells: m.cells, answers }
}

/// The value of the formula of a cell.
pub open spec fn formula_cell_value(m: EngineModel, k: Key<Seq<char>>, answers: Answers, fuel: nat) -> Res<
    Seq<char>,
> {
    match entries::get(m.formulas, k) {
        Some(f) => eval::formula_value(f.formula, context(m, k.sheet, answers), fuel),
        None => Outcome::Fail("formula cell not found"@),
    }
}

pub open spec fn formula_text(m: EngineModel, k: Key<Seq<char>>) -> Seq<char> {
    match entries::get(m.formulas, k) {
        Some(f) => f.formula,
        None => Seq::empty(),
    }
}

/// A shadow in which the formula of a cell has come to another value.
pub open spec fn recalculated(m: EngineModel, k: Key<Seq<char>>, value: Seq<char>, reason: Seq<char>) -> EngineModel {
    engine::logged(
        EngineModel {
            cells: entries::put(m.cells, k, value),
            dirty: entries::with(m.dirty, k),
            meta: entries::put(
                m.meta,
                k,
                ShadowMetaRecord {
                    cached_value_after: value,
                    is_dirty: true,
                    ..engine::meta_or_blank(m.meta, k)
                },
            ),
            ..m
        },
        objects::named_event(
            "formula_recalc"@,
            k.sheet,
            k.row,
            k.col,
            engine::value_or_empty(m.cells, k),
            value,
            formula_text(m, k),
            reason,
        ),
    )
}

impl SheetShadowEngine {
    pub fn evaluate_formula_cell(&self, k: &Key, answers: &Vec<(Ask, Reply)>, fuel: usize) -> (r:
        Outcome<String>)
        ensures
            r.deep_view() == formula_cell_value(
                self.deep_view(),
                k.deep_view(),
                answers.deep_view(),
                fuel as nat,
            ),
    {
        match entries::map_get(&self.formulas, k) {
            Some(f) => {
                let c = Ctx { sheet: &k.sheet, cells: &self.cells, answers };
                assert(c.deep_view() == context(
                    self.deep_view(),
                    k.sheet@,
                    answers.deep_view(),
                ));
                eval::evaluate_formula_mvp(&f.formula, &c, fuel)
            },
            None => Outcome::Fail("formula cell not found".to_owned()),
        }
    }

    fn formula_text_of(&self, k: &Key) -> (r: String)
        ensures
            r@ == formula_text(self.deep_view(), k.deep_view()),
    {
        match entries::map_get(&self.formulas, k) {
            Some(f) => f.formula.clone(),
            None => String::new(),
        }
    }

    fn recalculate_cell(&mut self, k: &Key, value: &str, reason: &str)
        ensures
            final(self).deep_view() == recalculated(
                old(self).deep_view(),
                k.deep_view(),
                value@,
                reason@,
            ),
            old(self).deep_view().wf() ==> final(self).deep_view().wf(),
    {
        let ghost m = self.deep_view();
        let old_value = engine::cell_or_empty(&self.cells, k);
        let formula = self.formula_text_of(k);
        let mut known = engine::meta_record(&self.meta, k);
        known.cached_value_after = value.to_owned();
        known.is_dirty = true;
        let ghost record = known.deep_view();
        entries::map_put(&mut self.cells, k.clone(), value.to_owned());
        entries::set_add(&mut self.dirty, k.clone());
        entries::map_put(&mut self.meta, k.clone(), known);
        let told = objects::audit_event(
            "formula_recalc",
            &k.sheet,
            k.row,
            k.col,
            &old_value,
            value,
            &formula,
            reason,
        );
        proof {
            engine::lemma_value_stays_valid(m, k.deep_view(), value@, record, told.deep_view());
        }
        self.log(told);
    }
}

// ----- What depends on a cell -----

/// A list without each of the given members.
pub open spec fn without_each(s: Keys, gone: Keys) -> Keys
    decreases gone.len(),
{
    if gone.len() == 0 {
        s
    } else {
        entries::without(without_each(s, gone.drop_last()), gone.last())
    }
}

fn remove_each(v: &mut Vec<Key>, gone: &Vec<Key>)
    ensures
        final(v).deep_view() == without_each(old(v).deep_view(), gone.deep_view()),
{
    let ghost all = gone.deep_view();
    let ghost start = v.deep_view();
    let mut i: usize = 0;
    assert(all.take(0).len() == 0);
    while i < gone.len()
        invariant
            i <= gone.len(),
            all == gone.deep_view(),
            v.deep_view() == without_each(start, all.take(i as int)),
        decreases gone.len() - i,
    {
        assert(all.take(i + 1).drop_last() == all.take(i as int));
        assert(all.take(i + 1).last() == gone@[i as int].deep_view());
        entries::set_remove(v, &gone[i]);
        i = i + 1;
    }
    assert(all.take(all.len() as int) == all);
}

/// Why a formula was worked out anew.
pub open spec fn dependence(source: Key<Seq<char>>) -> Seq<char> {
    "dependent_on:"@ + source.sheet + "!"@ + coord::a1_text(source.row, source.col)
}

fn dependence_on(source: &Key) -> (r: String)
    ensures
        r@ == dependence(source.deep_view()),
{
    let mut out = "dependent_on:".to_owned();
    out.append(&source.sheet);
    out.append("!");
    out.append(&coord::cell_name(source.row, source.col));
    out
}

/// The formulas that wait in `queue` worked out one after the other: a formula that comes to
/// another value sends those that depend on it into the queue again. `seen` holds the
/// formulas that need not be looked at again, `changed` those that came to another value.
pub open spec fn recalc(
    m: EngineModel,
    source: Key<Seq<char>>,
    queue: Keys,
    seen: Keys,
    changed: Keys,
    answers: Answers,
    fuel: nat,
    steps: nat,
) -> (EngineModel, Res<Keys>)
    decreases steps,
{
    if queue.len() == 0 {
        (m, Outcome::Value(changed))
    } else if steps == 0 {
        (m, Outcome::Exhausted)
    } else {
        let k = queue[0];
        let rest = queue.skip(1);
        let left = (steps - 1) as nat;
        if seen.contains(k) {
            recalc(m, source, rest, seen, changed, answers, fuel, left)
        } else {
            match formula_cell_value(m, k, answers, fuel) {
                Outcome::Value(value) => match eval::differ(
                    context(m, k.sheet, answers),
                    engine::value_or_empty(m.cells, k),
                    value,
                ) {
                    Outcome::Value(true) => {
                        let next = recalculated(m, k, value, dependence(source));
                        let more = engine::dependents_of(m.dependents, k);
                        recalc(
                            next,
                            source,
                            rest + more,
                            without_each(entries::with(seen, k), more),
                            changed.push(k),
                            answers,
                            fuel,
                            left,
                        )
                    },
                    Outcome::Value(false) => recalc(
                        m,
                        source,
                        rest,
                        entries::with(seen, k),
                        changed,
                        answers,
                        fuel,
                        left,
                    ),
                    other => (m, eval::held(other)),
                },
                other => (m, eval::held(other)),
            }
        }
    }
}

pub open spec fn recalc_from(
    m: EngineModel,
    source: Key<Seq<char>>,
    answers: Answers,
    fuel: nat,
    steps: nat,
) -> (EngineModel, Res<Keys>) {
    recalc(
        m,
        source,
        engine::dependents_of(m.dependents, source),
        Seq::empty(),
        Seq::empty(),
        answers,
        fuel,
        steps,
    )
}

impl SheetShadowEngine {
    /// Works out anew what depends on a cell.
    #[verifier::rlimit(60)]
    #[verifier::spinoff_prover]
    pub fn recalculate_dependents_from(
        &mut self,
        source: &Key,
        answers: &Vec<(Ask, Reply)>,
        fuel: usize,
        steps: usize,
    ) -> (r: Outcome<Vec<Key>>)
        ensures
            (final(self).deep_view(), r.deep_view()) == recalc_from(
                old(self).deep_view(),
                source.deep_view(),
                answers.deep_view(),
                fuel as nat,
                steps as nat,
            ),
            old(self).deep_view().wf() ==> final(self).deep_view().wf(),
    {
        let ghost m = self.deep_view();
        let ghost s = source.deep_view();
        let ghost a = answers.deep_view();
        let reason = dependence_on(source);
        let mut queue = engine::dependents_list(&self.dependents, source);
        let mut at: usize = 0;
        let mut seen: Vec<Key> = Vec::new();
        let mut changed: Vec<Key> = Vec::new();
        let mut left: usize = steps;
        assert(seen.deep_view() == Keys::empty());
        assert(changed.deep_view() == Keys::empty());
        assert(queue.deep_view().skip(0) == queue.deep_view());
        while at < queue.len()
            invariant
                at <= queue.len(),
                s == source.deep_view(),
                a == answers.deep_view(),
                reason@ == dependence(s),
                m.wf() ==> self.deep_view().wf(),
                recalc_from(m, s, a, fuel as nat, steps as nat) == recalc(
                    self.deep_view(),
                    s,
                    queue.deep_view().skip(at as int),
                    seen.deep_view(),
                    changed.deep_view(),
                    a,
                    fuel as nat,
                    left as nat,
                ),
            decreases left,
        {
            let ghost waiting = queue.deep_view();
            assert(waiting.len() == queue.len());
            assert(waiting.skip(at as int)[0] == queue@[at as int].deep_view());
            assert(waiting.skip(at as int).skip(1) == waiting.skip(at + 1));
            if left == 0 {
                return Outcome::Exhausted;
            }
            left = left - 1;
            let k = queue[at].clone();
            at = at + 1;
            if entries::set_has(&seen, &k) {
                continue;
            }
            let old_value = engine::cell_or_empty(&self.cells, &k);
            let value = match self.evaluate_formula_cell(&k, answers, fuel) {
                Outcome::Value(value) => value,
                other => return eval::hold(other),
            };
            let c = Ctx { sheet: &k.sheet, cells: &self.cells, answers };
            assert(c.deep_view() == context(self.deep_view(), k.sheet@, a));
            match eval::values_differ(&c, &old_value, &value) {
                Outcome::Value(true) => {
                    let mut more = engine::dependents_list(&self.dependents, &k);
                    self.recalculate_cell(&k, &value, &reason);
                    let ghost found = more.deep_view();
                    let ghost known = seen.deep_view();
                    entries::set_add(&mut seen, k.clone());
                    remove_each(&mut seen, &more);
                    let ghost done = changed.deep_view();
                    queue.append(&mut more);
                    assert(queue.deep_view() == waiting + found);
                    assert((waiting + found).skip(at as int) == waiting.skip(at as int) + found);
                    changed.push(k);
                    assert(changed.deep_view() == done.push(k.deep_view()));
                },
                Outcome::Value(false) => {
                    entries::set_add(&mut seen, k);
                },
                other => return eval::hold(other),
            }
        }
        assert(queue.deep_view().len() == queue.len());
        assert(queue.deep_view().skip(at as int).len() == 0);
        Outcome::Value(changed)
    }
}

/// Working out what depends on a cell changes values, what is known of the cells and the
/// trail, and nothing else.
pub proof fn law_recalculation_changes_values_only(
    m: EngineModel,
    source: Key<Seq<char>>,
    queue: Keys,
    seen: Keys,
    changed: Keys,
    answers: Answers,
    fuel: nat,
    steps: nat,
)
    ensures
        ({
            let r = recalc(m, source, queue, seen, changed, answers, fuel, steps).0;
            r == EngineModel {
                cells: r.cells,
                dirty: r.dirty,
                meta: r.meta,
                audit_events: r.audit_events,
                ..m
            }
        }),
    decreases steps,
{
    if queue.len() > 0 && steps > 0 {
        let k = queue[0];
        let rest = queue.skip(1);
        let left = (steps - 1) as nat;
        if seen.contains(k) {
            law_recalculation_changes_values_only(
                m,
                source,
                rest,
                seen,
                changed,
                answers,
                fuel,
                left,
            );
        } else {
            match formula_cell_value(m, k, answers, fuel) {
                Outcome::Value(value) => {
                    let next = recalculated(m, k, value, dependence(source));
                    let more = engine::dependents_of(m.dependents, k);
                    law_recalculation_changes_values_only(
                        next,
                        source,
                        rest + more,
                        without_each(entries::with(seen, k), more),
                        changed.push(k),
                        answers,
                        fuel,
                        left,
                    );
                    law_recalculation_changes_values_only(
                        m,
                        source,
                        rest,
                        entries::with(seen, k),
                        changed,
                        answers,
                        fuel,
                        left,
                    );
                },
                _ => {},
            }
        }
    }
}

/// Working out what depends on a cell leaves the cells that have no formula as they are.
pub proof fn law_recalculation_keeps_inputs(
    m: EngineModel,
    source: Key<Seq<char>>,
    queue: Keys,
    seen: Keys,
    changed: Keys,
    answers: Answers,
    fuel: nat,
    steps: nat,
    input: Key<Seq<char>>,
)
    requires
        entries::get(m.formulas, input) is None,
    ensures
        entries::get(
            recalc(m, source, queue, seen, changed, answers, fuel, steps).0.cells,
            input,
        ) == entries::get(m.cells, input),
    decreases steps,
{
    if queue.len() > 0 && steps > 0 {
        let k = queue[0];
        let rest = queue.skip(1);
        let left = (steps - 1) as nat;
        if seen.contains(k) {
            law_recalculation_keeps_inputs(
                m,
                source,
                rest,
                seen,
                changed,
                answers,
                fuel,
                left,
                input,
            );
        } else {
            match formula_cell_value(m, k, answers, fuel) {
                Outcome::Value(value) => {
                    let next = recalculated(m, k, value, dependence(source));
                    let more = engine::dependents_of(m.dependents, k);
                    entries::law_get_after_put(m.cells, k, value, input);
                    law_recalculation_keeps_inputs(
                        next,
                        source,
                        rest + more,
                        without_each(entries::with(seen, k), more),
                        changed.push(k),
                        answers,
                        fuel,
                        left,
                        input,
                    );
                    law_recalculation_keeps_inputs(
                        m,
                        source,
                        rest,
                        entries::with(seen, k),
                        changed,
                        answers,
                        fuel,
                        left,
                        input,
                    );
                },
                _ => {},
            }
        }
    }
}

/// A shadow with another trail.
pub open spec fn with_trail(m: EngineModel, trail: Seq<AuditEvent<Seq<char>>>) -> EngineModel {
    EngineModel { audit_events: trail, ..m }
}

/// What was told after the trail of `m`.
pub open spec fn told_since(m: EngineModel, later: EngineModel) -> Seq<AuditEvent<Seq<char>>> {
    later.audit_events.skip(m.audit_events.len() as int)
}

/// Working out what depends on a cell adds to the trail, under that reason alone, and neither
/// what it does nor what it adds hangs on the trail that there was.
pub proof fn law_trail_does_not_matter(
    m: EngineModel,
    trail: Seq<AuditEvent<Seq<char>>>,
    source: Key<Seq<char>>,
    queue: Keys,
    seen: Keys,
    changed: Keys,
    answers: Answers,
    fuel: nat,
    steps: nat,
)
    ensures
        ({
            let a = recalc(m, source, queue, seen, changed, answers, fuel, steps);
            let b = recalc(
                with_trail(m, trail),
                source,
                queue,
                seen,
                changed,
                answers,
                fuel,
                steps,
            );
            &&& a.0.audit_events == m.audit_events + told_since(m, a.0)
            &&& b == (with_trail(a.0, trail + told_since(m, a.0)), a.1)
            &&& forall|i: int|
                0 <= i < told_since(m, a.0).len() ==> (
                #[trigger] told_since(m, a.0)[i]).reason == dependence(source)
        }),
    decreases steps,
{
    let n = with_trail(m, trail);
    let empty = Seq::<AuditEvent<Seq<char>>>::empty();
    assert(m.audit_events.skip(m.audit_events.len() as int) == empty);
    assert(m.audit_events + empty == m.audit_events);
    assert(trail + empty == trail);
    if queue.len() > 0 && steps > 0 {
        let k = queue[0];
        let rest = queue.skip(1);
        let left = (steps - 1) as nat;
        assert(formula_cell_value(n, k, answers, fuel) == formula_cell_value(m, k, answers, fuel));
        if seen.contains(k) {
            law_trail_does_not_matter(m, trail, source, rest, seen, changed, answers, fuel, left);
        } else {
            match formula_cell_value(m, k, answers, fuel) {
                Outcome::Value(value) => {
                    let next = recalculated(m, k, value, dependence(source));
                    let more = engine::dependents_of(m.dependents, k);
                    let told = next.audit_events.last();
                    let longer = trail.push(told);
                    assert(recalculated(n, k, value, dependence(source)) == with_trail(
                        next,
                        longer,
                    ));
                    law_trail_does_not_matter(
                        next,
                        longer,
                        source,
                        rest + more,
                        without_each(entries::with(seen, k), more),
                        changed.push(k),
                        answers,
                        fuel,
                        left,
                    );
                    let a = recalc(
                        next,
                        source,
                        rest + more,
                        without_each(entries::with(seen, k), more),
                        changed.push(k),
                        answers,
                        fuel,
                        left,
                    ).0;
                    let e = told_since(next, a);
                    assert(m.audit_events.push(told) + e == m.audit_events + (seq![told] + e));
                    assert(a.audit_events.skip(m.audit_events.len() as int) == seq![told] + e);
                    assert(trail.push(told) + e == trail + (seq![told] + e));
                    law_trail_does_not_matter(
                        m,
                        trail,
                        source,
                        rest,
                        entries::with(seen, k),
                        changed,
                        answers,
                        fuel,
                        left,
                    );
                },
                _ => {},
            }
        }
    }
}

// ----- Values -----

/// A shadow in which a value was put into a cell.
pub open spec fn with_input(m: EngineModel, k: Key<Seq<char>>, value: Seq<char>, reason: Seq<char>) -> EngineModel {
    engine::logged(
        EngineModel {
            cells: entries::put(m.cells, k, value),
            modified: entries::with(m.modified, k),
            meta: entries::put(
                m.meta,
                k,
                ShadowMetaRecord {
                    is_modified: true,
                    cached_value_after: value,
                    ..engine::meta_or_blank(m.meta, k)
                },
            ),
            ..m
        },
        objects::event(
            "input_update"@,
            k.sheet,
            k.row,
            k.col,
            engine::value_or_empty(m.cells, k),
            value,
            reason,
        ),
    )
}

/// How far the arithmetic of a request may go: how deep formulas may nest, and how many
/// formulas may be worked out.
#[derive(Clone, Copy)]
pub struct Bounds {
    pub fuel: usize,
    pub steps: usize,
}

/// A value put into a cell, and what depends on the cell worked out anew.
pub open spec fn updated(
    m: EngineModel,
    k: Key<Seq<char>>,
    value: Seq<char>,
    reason: Seq<char>,
    answers: Answers,
    b: Bounds,
) -> (EngineModel, Res<Keys>) {
    match engine::target_refusal(m, k.sheet, k.row, k.col) {
        Some(message) => (m, Outcome::Fail(message)),
        None => recalc_from(
            with_input(m, k, value, reason),
            k,
            answers,
            b.fuel as nat,
            b.steps as nat,
        ),
    }
}

/// Whether a request has come to an end, and does not wait for arithmetic or for more
/// steps.
pub open spec fn is_over<T>(o: Res<T>) -> bool {
    o is Value || o is Fail
}

/// The shadow after a request: as it was while the request is not over.
pub open spec fn kept<T>(m: EngineModel, r: (EngineModel, Res<T>)) -> EngineModel {
    if is_over(r.1) {
        r.0
    } else {
        m
    }
}

pub fn over<T: DeepView>(o: &Outcome<T>) -> (r: bool)
    ensures
        r == is_over(o.deep_view()),
{
    match o {
        Outcome::Value(_) => true,
        Outcome::Fail(_) => true,
        _ => false,
    }
}

impl SheetShadowEngine {
    fn put_input(&mut self, k: &Key, value: &str, reason: &str)
        ensures
            final(self).deep_view() == with_input(
                old(self).deep_view(),
                k.deep_view(),
                value@,
                reason@,
            ),
            old(self).deep_view().wf() ==> final(self).deep_view().wf(),
    {
        let ghost m = self.deep_view();
        let old_value = engine::cell_or_empty(&self.cells, k);
        let mut known = engine::meta_record(&self.meta, k);
        known.is_modified = true;
        known.cached_value_after = value.to_owned();
        let ghost record = known.deep_view();
        entries::map_put(&mut self.cells, k.clone(), value.to_owned());
        entries::set_add(&mut self.modified, k.clone());
        entries::map_put(&mut self.meta, k.clone(), known);
        let told = objects::object_audit_event(
            "input_update",
            &k.sheet,
            k.row,
            k.col,
            &old_value,
            value,
            reason,
        );
        proof {
            engine::lemma_value_stays_valid(m, k.deep_view(), value@, record, told.deep_view());
        }
        self.log(told);
    }

    /// Puts a value into a cell at once, also where arithmetic is still needed.
    fn update_now(
        &mut self,
        k: &Key,
        value: &str,
        reason: &str,
        answers: &Vec<(Ask, Reply)>,
        b: Bounds,
    ) -> (r: Outcome<Vec<Key>>)
        ensures
            (final(self).deep_view(), r.deep_view()) == updated(
                old(self).deep_view(),
                k.deep_view(),
                value@,
                reason@,
                answers.deep_view(),
                b,
            ),
            old(self).deep_view().wf() ==> final(self).deep_view().wf(),
    {
        match self.target_refused(&k.sheet, k.row, k.col) {
            Some(message) => return Outcome::Fail(message),
            None => {},
        }
        self.put_input(k, value, reason);
        self.recalculate_dependents_from(k, answers, b.fuel, b.steps)
    }

    pub fn update_cell_with_reason(
        &mut self,
        k: &Key,
        value: &str,
        reason: &str,
        answers: &Vec<(Ask, Reply)>,
        b: Bounds,
    ) -> (r: Outcome<Vec<Key>>)
        ensures
            r.deep_view() == updated(
                old(self).deep_view(),
                k.deep_view(),
                value@,
                reason@,
                answers.deep_view(),
                b,
            ).1,
            final(self).deep_view() == kept(
                old(self).deep_view(),
                updated(
                    old(self).deep_view(),
                    k.deep_view(),
                    value@,
                    reason@,
                    answers.deep_view(),
                    b,
                ),
            ),
            old(self).deep_view().wf() ==> final(self).deep_view().wf(),
    {
        let mut next = self.copied();
        let r = next.update_now(k, value, reason, answers, b);
        if over(&r) {
            *self = next;
        }
        r
    }

    /// Puts a value into a cell.
    pub fn update_cell(
        &mut self,
        k: &Key,
        value: &str,
        answers: &Vec<(Ask, Reply)>,
        b: Bounds,
    ) -> (r: Outcome<Vec<Key>>)
        ensures
            r.deep_view() == updated(
                old(self).deep_view(),
                k.deep_view(),
                value@,
                "direct_update"@,
                answers.deep_view(),
                b,
            ).1,
            final(self).deep_view() == kept(
                old(self).deep_view(),
                updated(
                    old(self).deep_view(),
                    k.deep_view(),
                    value@,
                    "direct_update"@,
                    answers.deep_view(),
                    b,
                ),
            ),
            old(self).deep_view().wf() ==> final(self).deep_view().wf(),
    {
        self.update_cell_with_reason(k, value, "direct_update", answers, b)
    }
}

/// The report on a request tried out on a copy with an empty trail.
pub open spec fn previewed<T>(r: (EngineModel, Res<T>)) -> Res<ReportModel> {
    match r.1 {
        Outcome::Value(_) => Outcome::Value(engine::trail_report(r.0.audit_events)),
        other => eval::held(other),
    }
}

impl SheetShadowEngine {
    pub fn preview_update_cell(
        &self,
        k: &Key,
        value: &str,
        answers: &Vec<(Ask, Reply)>,
        b: Bounds,
    ) -> (r: Outcome<Vec<Fields>>)
        ensures
            r.deep_view() == previewed(
                updated(
                    engine::untold(self.deep_view()),
                    k.deep_view(),
                    value@,
                    "preview_update"@,
                    answers.deep_view(),
                    b,
                ),
            ),
    {
        let mut preview = self.copied();
        preview.clear_audit_log();
        match preview.update_now(k, value, "preview_update", answers, b) {
            Outcome::Value(_) => Outcome::Value(preview.audit_report()),
            other => eval::hold(other),
        }
    }
}

/// Whether a reason is that of a request that is tried out.
pub open spec fn is_trial(reason: Seq<char>) -> bool {
    text::starts(reason, "preview_"@)
}

/// An event with one reason read as another.
pub open spec fn relabelled(e: AuditEvent<Seq<char>>, from: Seq<char>, to: Seq<char>) -> AuditEvent<
    Seq<char>,
> {
    if e.reason == from {
        AuditEvent { reason: to, ..e }
    } else {
        e
    }
}

/// Whether a trail is another with one reason read as another.
pub open spec fn retold(
    a: Seq<AuditEvent<Seq<char>>>,
    b: Seq<AuditEvent<Seq<char>>>,
    from: Seq<char>,
    to: Seq<char>,
) -> bool {
    &&& a.len() == b.len()
    &&& forall|i: int|
        #![trigger a[i]]
        #![trigger b[i]]
        0 <= i < a.len() ==> b[i] == relabelled(a[i], from, to)
}

proof fn lemma_dependence_is_no_trial(source: Key<Seq<char>>)
    ensures
        !is_trial(dependence(source)),
{
    reveal_strlit("dependent_on:");
    reveal_strlit("preview_");
    let r = dependence(source);
    assert(r[0] == 'd');
    if is_trial(r) {
        assert("preview_"@[0] == r[0]);
    }
}

/// A value put into a cell without a formula is what the cell reads as afterwards, whatever
/// is worked out anew.
pub proof fn law_updated_value_reads_back(
    m: EngineModel,
    k: Key<Seq<char>>,
    value: Seq<char>,
    reason: Seq<char>,
    answers: Answers,
    b: Bounds,
)
    requires
        engine::target_refusal(m, k.sheet, k.row, k.col) is None,
        entries::get(m.formulas, k) is None,
    ensures
        engine::value_or_empty(updated(m, k, value, reason, answers, b).0.cells, k) == value,
{
    let put = with_input(m, k, value, reason);
    entries::law_get_after_put(m.cells, k, value, k);
    law_recalculation_keeps_inputs(
        put,
        k,
        engine::dependents_of(put.dependents, k),
        Seq::empty(),
        Seq::empty(),
        answers,
        b.fuel as nat,
        b.steps as nat,
        k,
    );
}

/// Trying out a value tells what putting it in tells, under the reason of the trial, and comes to
/// the same result.
pub proof fn law_preview_tells_what_an_update_does(
    m: EngineModel,
    k: Key<Seq<char>>,
    value: Seq<char>,
    reason: Seq<char>,
    other: Seq<char>,
    answers: Answers,
    b: Bounds,
)
    requires
        is_trial(other),
    ensures
        ({
            let applied = updated(m, k, value, reason, answers, b);
            let tried = updated(engine::untold(m), k, value, other, answers, b);
            &&& tried.1 == applied.1
            &&& applied.0.audit_events == m.audit_events + told_since(m, applied.0)
            &&& retold(tried.0.audit_events, told_since(m, applied.0), other, reason)
            &&& with_trail(tried.0, applied.0.audit_events) == applied.0
        }),
{
    lemma_dependence_is_no_trial(k);
    let n = engine::untold(m);
    let applied = updated(m, k, value, reason, answers, b);
    let tried = updated(n, k, value, other, answers, b);
    let empty = Seq::<AuditEvent<Seq<char>>>::empty();
    match engine::target_refusal(m, k.sheet, k.row, k.col) {
        Some(_) => {
            assert(m.audit_events.skip(m.audit_events.len() as int) == empty);
            assert(m.audit_events + empty == m.audit_events);
        },
        None => {
            let x = with_input(m, k, value, reason);
            let y = with_input(n, k, value, other);
            assert(y == with_trail(x, y.audit_events));
            law_trail_does_not_matter(
                x,
                y.audit_events,
                k,
                engine::dependents_of(x.dependents, k),
                Seq::empty(),
                Seq::empty(),
                answers,
                b.fuel as nat,
                b.steps as nat,
            );
            let e = told_since(x, applied.0);
            assert(applied.0.audit_events == x.audit_events + e);
            assert(tried.0.audit_events == y.audit_events + e);
            let first = x.audit_events.last();
            assert(x.audit_events == m.audit_events.push(first));
            assert(told_since(m, applied.0) == seq![first] + e);
            assert(m.audit_events + (seq![first] + e) == x.audit_events + e);
            let other_first = y.audit_events.last();
            assert(y.audit_events == empty.push(other_first));
            assert(tried.0.audit_events == seq![other_first] + e);
        },
    }
}

// ----- Formulas -----

/// A formula as it is kept: with its sign, and without space around it.
pub open spec fn formula_normalized(s: Seq<char>) -> Result<Seq<char>, Seq<char>> {
    let t = text::trim(s);
    if t.len() == 0 || t == "="@ {
        Err("unsupported_formula: formula text must not be empty"@)
    } else if text::starts(t, "="@) {
        Ok(t)
    } else {
        Ok("="@ + t)
    }
}

pub fn normalize_formula_text(formula: &str) -> (r: Result<String, String>)
    ensures
        crate::package::text_view(r) == formula_normalized(formula@),
{
    let t = text::trimmed(formula);
    if t.as_str().is_empty() || text::same(&t, "=") {
        Err("unsupported_formula: formula text must not be empty".to_owned())
    } else if text::starts_with(&t, "=") {
        Ok(t)
    } else {
        let mut out = "=".to_owned();
        out.append(&t);
        Ok(out)
    }
}

/// A shadow with a formula in a cell, of which nothing is worked out yet.
pub open spec fn with_formula(m: EngineModel, k: Key<Seq<char>>, formula: Seq<char>) -> EngineModel {
    EngineModel {
        formulas: entries::put(m.formulas, k, FormulaCell { formula, deps: Seq::empty() }),
        ..m
    }
}

proof fn lemma_formula_stays_valid(m: EngineModel, k: Key<Seq<char>>, formula: Seq<char>)
    ensures
        engine::as_valid(m, with_formula(m, k, formula)),
{
    reveal(EngineModel::once_each);
    if m.once_each() {
        cells::lemma_put_formula_once(
            m.formulas,
            k,
            FormulaCell { formula, deps: Seq::empty() },
        );
    }
}

/// Whether the formula of a cell depends on the cell itself.
pub open spec fn is_circular(m: EngineModel, k: Key<Seq<char>>) -> bool {
    match entries::get(m.formulas, k) {
        Some(f) => f.deps.contains(k),
        None => false,
    }
}

/// A shadow in which a formula was set and came to a value.
pub open spec fn with_formula_value(
    m: EngineModel,
    k: Key<Seq<char>>,
    formula: Seq<char>,
    value: Seq<char>,
    reason: Seq<char>,
) -> EngineModel {
    let before = engine::value_or_empty(m.cells, k);
    engine::logged(
        EngineModel {
            cells: entries::put(m.cells, k, value),
            modified: entries::with(m.modified, k),
            meta: entries::put(
                m.meta,
                k,
                ShadowMetaRecord {
                    cell_type: "formula"@,
                    original_formula: formula,
                    cached_value_before: before,
                    cached_value_after: value,
                    is_modified: true,
                    ..engine::meta_or_blank(m.meta, k)
                },
            ),
            ..m
        },
        objects::named_event(
            "formula_update"@,
            k.sheet,
            k.row,
            k.col,
            before,
            value,
            formula,
            reason,
        ),
    )
}

/// A formula set in a cell, its value worked out, and what depends on the cell worked out
/// anew.
pub open spec fn formula_applied(
    m: EngineModel,
    k: Key<Seq<char>>,
    formula: Seq<char>,
    reason: Seq<char>,
    answers: Answers,
    b: Bounds,
) -> (EngineModel, Res<Keys>) {
    match engine::target_refusal(m, k.sheet, k.row, k.col) {
        Some(message) => (m, Outcome::Fail(message)),
        None => match formula_normalized(formula) {
            Err(message) => (m, Outcome::Fail(message)),
            Ok(f) => {
                let set = with_formula(m, k, f);
                let linked = EngineModel { formulas: engine::relinked(set), ..set };
                if is_circular(linked, k) {
                    (
                        linked,
                        Outcome::Fail(
                            "unsupported_formula: circular formula references are not supported"@,
                        ),
                    )
                } else {
                    let ready = engine::rebuilt(set);
                    match formula_cell_value(ready, k, answers, b.fuel as nat) {
                        Outcome::Value(value) => {
                            let valued = with_formula_value(ready, k, f, value, reason);
                            let r = recalc_from(
                                valued,
                                k,
                                answers,
                                b.fuel as nat,
                                b.steps as nat,
                            );
                            match r.1 {
                                Outcome::Value(list) => (
                                    r.0,
                                    Outcome::Value(seq![k] + list),
                                ),
                                other => (r.0, other),
                            }
                        },
                        other => (ready, eval::held(other)),
                    }
                }
            },
        },
    }
}

impl SheetShadowEngine {
    fn depends_on_itself(&self, k: &Key) -> (r: bool)
        ensures
            r == is_circular(self.deep_view(), k.deep_view()),
    {
        match entries::map_get(&self.formulas, k) {
            Some(f) => entries::set_has(&f.deps, k),
            None => false,
        }
    }

    fn put_formula_value(&mut self, k: &Key, formula: &str, value: &str, reason: &str)
        ensures
            final(self).deep_view() == with_formula_value(
                old(self).deep_view(),
                k.deep_view(),
                formula@,
                value@,
                reason@,
            ),
            old(self).deep_view().wf() ==> final(self).deep_view().wf(),
    {
        let ghost m = self.deep_view();
        let old_value = engine::cell_or_empty(&self.cells, k);
        let mut known = engine::meta_record(&self.meta, k);
        known.cell_type = "formula".to_owned();
        known.original_formula = formula.to_owned();
        known.cached_value_before = old_value.clone();
        known.cached_value_after = value.to_owned();
        known.is_modified = true;
        let ghost record = known.deep_view();
        entries::map_put(&mut self.cells, k.clone(), value.to_owned());
        entries::set_add(&mut self.modified, k.clone());
        entries::map_put(&mut self.meta, k.clone(), known);
        let told = objects::audit_event(
            "formula_update",
            &k.sheet,
            k.row,
            k.col,
            &old_value,
            value,
            formula,
            reason,
        );
        proof {
            engine::lemma_value_stays_valid(m, k.deep_view(), value@, record, told.deep_view());
        }
        self.log(told);
    }

    pub fn apply_formula_with_reason(
        &mut self,
        k: &Key,
        formula: &str,
        reason: &str,
        answers: &Vec<(Ask, Reply)>,
        b: Bounds,
    ) -> (r: Outcome<Vec<Key>>)
        ensures
            (final(self).deep_view(), r.deep_view()) == formula_applied(
                old(self).deep_view(),
                k.deep_view(),
                formula@,
                reason@,
                answers.deep_view(),
                b,
            ),
            old(self).deep_view().wf() ==> final(self).deep_view().wf(),
    {
        match self.target_refused(&k.sheet, k.row, k.col) {
            Some(message) => return Outcome::Fail(message),
            None => {},
        }
        let f = match normalize_formula_text(formula) {
            Ok(f) => f,
            Err(message) => return Outcome::Fail(message),
        };
        let none: Vec<Key> = Vec::new();
        assert(none.deep_view() == Keys::empty());
        proof {
            lemma_formula_stays_valid(self.deep_view(), k.deep_view(), f@);
        }
        entries::map_put(
            &mut self.formulas,
            k.clone(),
            FormulaCell { formula: f.clone(), deps: none },
        );
        self.rebuild_formula_deps();
        if self.depends_on_itself(k) {
            return Outcome::Fail(
                "unsupported_formula: circular formula references are not supported".to_owned(),
            );
        }
        self.rebuild_dependents();
        let value = match self.evaluate_formula_cell(k, answers, b.fuel) {
            Outcome::Value(value) => value,
            other => return eval::hold(other),
        };
        self.put_formula_value(k, &f, &value, reason);
        match self.recalculate_dependents_from(k, answers, b.fuel, b.steps) {
            Outcome::Value(list) => {
                let mut more = list;
                let ghost found = more.deep_view();
                let mut out: Vec<Key> = vec![k.clone()];
                assert(out.deep_view() == seq![k.deep_view()]);
                out.append(&mut more);
                assert(out.deep_view() == seq![k.deep_view()] + found);
                Outcome::Value(out)
            },
            other => other,
        }
    }

    /// Sets the formula of a cell; a request that does not succeed changes nothing.
    pub fn set_formula(
        &mut self,
        k: &Key,
        formula: &str,
        answers: &Vec<(Ask, Reply)>,
        b: Bounds,
    ) -> (r: Outcome<Vec<Key>>)
        ensures
            r.deep_view() == formula_applied(
                old(self).deep_view(),
                k.deep_view(),
                formula@,
                "set_formula"@,
                answers.deep_view(),
                b,
            ).1,
            final(self).deep_view() == (if r is Value {
                formula_applied(
                    old(self).deep_view(),
                    k.deep_view(),
                    formula@,
                    "set_formula"@,
                    answers.deep_view(),
                    b,
                ).0
            } else {
                old(self).deep_view()
            }),
            old(self).deep_view().wf() ==> final(self).deep_view().wf(),
    {
        let mut next = self.copied();
        let r = next.apply_formula_with_reason(k, formula, "set_formula", answers, b);
        match &r {
            Outcome::Value(_) => {
                *self = next;
            },
            _ => {},
        }
        r
    }

    pub fn preview_set_formula(
        &self,
        k: &Key,
        formula: &str,
        answers: &Vec<(Ask, Reply)>,
        b: Bounds,
    ) -> (r: Outcome<Vec<Fields>>)
        ensures
            r.deep_view() == previewed(
                formula_applied(
                    engine::untold(self.deep_view()),
                    k.deep_view(),
                    formula@,
                    "preview_set_formula"@,
                    answers.deep_view(),
                    b,
                ),
            ),
    {
        let mut preview = self.copied();
        preview.clear_audit_log();
        match preview.apply_formula_with_reason(k, formula, "preview_set_formula", answers, b) {
            Outcome::Value(_) => Outcome::Value(preview.audit_report()),
            other => eval::hold(other),
        }
    }
}

/// A formula that was set is the formula of its cell afterwards.
pub proof fn law_set_formula_reads_back(
    m: EngineModel,
    k: Key<Seq<char>>,
    formula: Seq<char>,
    reason: Seq<char>,
    answers: Answers,
    b: Bounds,
)
    requires
        formula_applied(m, k, formula, reason, answers, b).1 is Value,
    ensures
        formula_normalized(formula) is Ok,
        formula_text(formula_applied(m, k, formula, reason, answers, b).0, k)
            == formula_normalized(formula)->Ok_0,
{
    let f = formula_normalized(formula)->Ok_0;
    let set = with_formula(m, k, f);
    let ready = engine::rebuilt(set);
    entries::law_get_after_put(m.formulas, k, FormulaCell { formula: f, deps: Seq::empty() }, k);
    entries::lemma_same_keys(set.formulas, ready.formulas, k);
    entries::lemma_place(set.formulas, k);
    let value = formula_cell_value(ready, k, answers, b.fuel as nat)->Value_0;
    let valued = with_formula_value(ready, k, f, value, reason);
    law_recalculation_changes_values_only(
        valued,
        k,
        engine::dependents_of(valued.dependents, k),
        Seq::empty(),
        Seq::empty(),
        answers,
        b.fuel as nat,
        b.steps as nat,
    );
}

/// Trying out a formula tells what setting it tells, under the reason of the trial, and comes to
/// the same result.
pub proof fn law_preview_tells_what_setting_a_formula_does(
    m: EngineModel,
    k: Key<Seq<char>>,
    formula: Seq<char>,
    reason: Seq<char>,
    other: Seq<char>,
    answers: Answers,
    b: Bounds,
)
    requires
        is_trial(other),
    ensures
        ({
            let applied = formula_applied(m, k, formula, reason, answers, b);
            let tried = formula_applied(engine::untold(m), k, formula, other, answers, b);
            &&& tried.1 == applied.1
            &&& applied.0.audit_events == m.audit_events + told_since(m, applied.0)
            &&& retold(tried.0.audit_events, told_since(m, applied.0), other, reason)
            &&& with_trail(tried.0, applied.0.audit_events) == applied.0
        }),
{
    lemma_dependence_is_no_trial(k);
    let n = engine::untold(m);
    let applied = formula_applied(m, k, formula, reason, answers, b);
    let tried = formula_applied(n, k, formula, other, answers, b);
    let empty = Seq::<AuditEvent<Seq<char>>>::empty();
    assert(m.audit_events.skip(m.audit_events.len() as int) == empty);
    assert(m.audit_events + empty == m.audit_events);
    if engine::target_refusal(m, k.sheet, k.row, k.col) is None && formula_normalized(
        formula,
    ) is Ok {
        let f = formula_normalized(formula)->Ok_0;
        let set = with_formula(m, k, f);
        let set_n = with_formula(n, k, f);
        assert(engine::relinked(set) == engine::relinked(set_n));
        let linked = EngineModel { formulas: engine::relinked(set), ..set };
        let ready = engine::rebuilt(set);
        let ready_n = engine::rebuilt(set_n);
        assert(ready_n == with_trail(ready, empty));
        if !is_circular(linked, k) {
            assert(formula_cell_value(ready, k, answers, b.fuel as nat) == formula_cell_value(
                ready_n,
                k,
                answers,
                b.fuel as nat,
            ));
            match formula_cell_value(ready, k, answers, b.fuel as nat) {
                Outcome::Value(value) => {
                    let x = with_formula_value(ready, k, f, value, reason);
                    let y = with_formula_value(ready_n, k, f, value, other);
                    assert(y == with_trail(x, y.audit_events));
                    law_trail_does_not_matter(
                        x,
                        y.audit_events,
                        k,
                        engine::dependents_of(x.dependents, k),
                        Seq::empty(),
                        Seq::empty(),
                        answers,
                        b.fuel as nat,
                        b.steps as nat,
                    );
                    let e = told_since(x, applied.0);
                    assert(applied.0.audit_events == x.audit_events + e);
                    assert(tried.0.audit_events == y.audit_events + e);
                    let first = x.audit_events.last();
                    assert(x.audit_events == m.audit_events.push(first));
                    assert(told_since(m, applied.0) == seq![first] + e);
                    assert(m.audit_events + (seq![first] + e) == x.audit_events + e);
                    let other_first = y.audit_events.last();
                    assert(y.audit_events == empty.push(other_first));
                    assert(tried.0.audit_events == seq![other_first] + e);
                },
                _ => {},
            }
        }
    }
}

// ----- Many values -----

/// The first `n` values of a list put in, one after the other, up to the first that is
/// refused.
pub open spec fn batch(
    m: EngineModel,
    list: Seq<(Key<Seq<char>>, Seq<char>)>,
    answers: Answers,
    b: Bounds,
    n: int,
) -> (EngineModel, Res<()>)
    decreases n,
{
    if n <= 0 {
        (m, Outcome::Value(()))
    } else {
        let done = batch(m, list, answers, b, n - 1);
        match done.1 {
            Outcome::Value(_) => {
                let r = updated(
                    done.0,
                    list[n - 1].0,
                    list[n - 1].1,
                    "batch_update"@,
                    answers,
                    b,
                );
                match r.1 {
                    Outcome::Value(_) => (r.0, Outcome::Value(())),
                    other => (r.0, eval::held(other)),
                }
            },
            other => done,
        }
    }
}

pub open spec fn batch_updated(
    m: EngineModel,
    list: Seq<(Key<Seq<char>>, Seq<char>)>,
    answers: Answers,
    b: Bounds,
) -> (EngineModel, Res<()>) {
    if list.len() == 0 {
        (m, Outcome::Fail("unsafe_update: batch must not be empty"@))
    } else {
        batch(m, list, answers, b, list.len() as int)
    }
}

proof fn lemma_batch_stays_over(
    m: EngineModel,
    list: Seq<(Key<Seq<char>>, Seq<char>)>,
    answers: Answers,
    b: Bounds,
    i: int,
    n: int,
)
    requires
        0 <= i <= n,
        !(batch(m, list, answers, b, i).1 is Value),
    ensures
        batch(m, list, answers, b, n) == batch(m, list, answers, b, i),
    decreases n,
{
    if i < n {
        lemma_batch_stays_over(m, list, answers, b, i, n - 1);
    }
}

impl SheetShadowEngine {
    fn batch_now(&mut self, list: &Vec<(Key, String)>, answers: &Vec<(Ask, Reply)>, b: Bounds) -> (r:
        Outcome<()>)
        ensures
            (final(self).deep_view(), r.deep_view()) == batch(
                old(self).deep_view(),
                list.deep_view(),
                answers.deep_view(),
                b,
                list.deep_view().len() as int,
            ),
            old(self).deep_view().wf() ==> final(self).deep_view().wf(),
    {
        let ghost m = self.deep_view();
        let ghost all = list.deep_view();
        let mut i: usize = 0;
        while i < list.len()
            invariant
                i <= list.len(),
                all == list.deep_view(),
                m.wf() ==> self.deep_view().wf(),
                batch(m, all, answers.deep_view(), b, i as int) == (
                    self.deep_view(),
                    Outcome::<(), Seq<char>, Seq<Seq<char>>>::Value(()),
                ),
            decreases list.len() - i,
        {
            assert(all[i as int] == list@[i as int].deep_view());
            match self.update_now(&list[i].0, &list[i].1, "batch_update", answers, b) {
                Outcome::Value(_) => {},
                other => {
                    let r: Outcome<()> = eval::hold(other);
                    proof {
                        lemma_batch_stays_over(
                            m,
                            all,
                            answers.deep_view(),
                            b,
                            i + 1,
                            all.len() as int,
                        );
                    }
                    return r;
                },
            }
            i = i + 1;
        }
        Outcome::Value(())
    }

    /// Puts many values in; those before the first that is refused stay.
    pub fn batch_update_cells(
        &mut self,
        updates: &Vec<(Key, String)>,
        answers: &Vec<(Ask, Reply)>,
        b: Bounds,
    ) -> (r: Outcome<Vec<Fields>>)
        ensures
            ({
                let done = batch_updated(
                    old(self).deep_view(),
                    updates.deep_view(),
                    answers.deep_view(),
                    b,
                );
                &&& r.deep_view() == previewed(done)
                &&& final(self).deep_view() == kept(old(self).deep_view(), done)
            }),
            old(self).deep_view().wf() ==> final(self).deep_view().wf(),
    {
        assert(updates.deep_view().len() == updates.len());
        if updates.len() == 0 {
            return Outcome::Fail("unsafe_update: batch must not be empty".to_owned());
        }
        let mut next = self.copied();
        let r = next.batch_now(updates, answers, b);
        if over(&r) {
            *self = next;
        }
        match r {
            Outcome::Value(_) => Outcome::Value(self.audit_report()),
            other => eval::hold(other),
        }
    }
}

// ----- All formulas -----

/// The cells that have a formula, in order of their sheets, rows and columns.
pub open spec fn formula_order(m: EngineModel) -> Keys {
    sorted_keys(engine::formula_cells(m.formulas))
}

/// Whether a cell comes before another: by sheet, then by row, then by column.
pub open spec fn key_before(a: Key<Seq<char>>, b: Key<Seq<char>>) -> bool {
    text::precedes(a.sheet, b.sheet) || (a.sheet == b.sheet && (a.row < b.row || (a.row == b.row
        && a.col < b.col)))
}

pub fn key_is_before(a: &Key, b: &Key) -> (r: bool)
    ensures
        r == key_before(a.deep_view(), b.deep_view()),
{
    text::is_before(&a.sheet, &b.sheet) || (text::same(&a.sheet, &b.sheet) && (a.row < b.row || (
    a.row == b.row && a.col < b.col)))
}

pub open spec fn key_place(s: Keys, k: Key<Seq<char>>) -> int
    decreases s.len(),
{
    if s.len() == 0 {
        0
    } else if key_before(k, s.last()) {
        key_place(s.drop_last(), k)
    } else {
        s.len() as int
    }
}

pub open spec fn sorted_keys(s: Keys) -> Keys
    decreases s.len(),
{
    if s.len() == 0 {
        s
    } else {
        let done = sorted_keys(s.drop_last());
        done.insert(key_place(done, s.last()), s.last())
    }
}

pub fn sort_keys(v: &Vec<Key>) -> (r: Vec<Key>)
    ensures
        r.deep_view() == sorted_keys(v.deep_view()),
{
    let ghost all = v.deep_view();
    let mut out: Vec<Key> = Vec::new();
    let mut i: usize = 0;
    assert(out.deep_view() == Keys::empty());
    assert(all.take(0) == Keys::empty());
    while i < v.len()
        invariant
            i <= v.len(),
            all == v.deep_view(),
            out.deep_view() == sorted_keys(all.take(i as int)),
        decreases v.len() - i,
    {
        assert(all.take(i + 1).drop_last() == all.take(i as int));
        assert(all.take(i + 1).last() == v@[i as int].deep_view());
        let k = v[i].clone();
        let ghost done = out.deep_view();
        let mut at: usize = out.len();
        assert(done.take(at as int) == done);
        while at > 0 && key_is_before(&k, &out[at - 1])
            invariant
                at <= out.len(),
                done == out.deep_view(),
                key_place(done, k.deep_view()) == key_place(done.take(at as int), k.deep_view()),
            decreases at,
        {
            assert(done.take(at as int).last() == out@[at - 1].deep_view());
            assert(done.take(at as int).drop_last() == done.take(at - 1));
            at = at - 1;
        }
        if at > 0 {
            assert(done.take(at as int).last() == out@[at - 1].deep_view());
        }
        out.insert(at, k);
        assert(out.deep_view() == done.insert(at as int, k.deep_view()));
        i = i + 1;
    }
    assert(all.take(all.len() as int) == all);
    out
}

/// The order of cells is total and strict.
pub proof fn law_cells_are_ordered(a: Key<Seq<char>>, b: Key<Seq<char>>, c: Key<Seq<char>>)
    ensures
        !key_before(a, a),
        a != b ==> key_before(a, b) || key_before(b, a),
        key_before(a, b) && key_before(b, c) ==> key_before(a, c),
{
    text::law_texts_are_ordered(a.sheet, b.sheet, c.sheet);
}

pub open spec fn cells_ascend(s: Keys) -> bool {
    forall|i: int, j: int| 0 <= i < j < s.len() ==> !key_before(#[trigger] s[j], #[trigger] s[i])
}

proof fn lemma_key_place_splits(s: Keys, k: Key<Seq<char>>)
    requires
        cells_ascend(s),
    ensures
        0 <= key_place(s, k) <= s.len(),
        forall|i: int| 0 <= i < key_place(s, k) ==> !key_before(k, #[trigger] s[i]),
        forall|i: int| key_place(s, k) <= i < s.len() ==> !key_before(#[trigger] s[i], k),
    decreases s.len(),
{
    if s.len() > 0 {
        let last = s.last();
        law_cells_are_ordered(k, last, k);
        if key_before(k, last) {
            let rest = s.drop_last();
            assert(cells_ascend(rest)) by {
                assert forall|i: int, j: int| 0 <= i < j < rest.len() implies !key_before(
                    #[trigger] rest[j],
                    #[trigger] rest[i],
                ) by {
                    assert(!key_before(s[j], s[i]));
                }
            }
            lemma_key_place_splits(rest, k);
            assert forall|i: int| 0 <= i < key_place(s, k) implies !key_before(k, #[trigger] s[i]) by {
                assert(rest[i] == s[i]);
            }
            assert forall|i: int| key_place(s, k) <= i < s.len() implies !key_before(
                #[trigger] s[i],
                k,
            ) by {
                if i < rest.len() {
                    assert(rest[i] == s[i]);
                } else {
                    law_cells_are_ordered(k, last, k);
                    law_cells_are_ordered(k, k, k);
                }
            }
        } else {
            assert forall|i: int| 0 <= i < s.len() implies !key_before(k, #[trigger] s[i]) by {
                if i < s.len() - 1 {
                    assert(!key_before(s[s.len() - 1], s[i]));
                    law_cells_are_ordered(s[i], last, k);
                    law_cells_are_ordered(k, s[i], last);
                }
            }
        }
    }
}

/// Cells put in order ascend, and none is lost or added.
pub proof fn law_sorted_cells_ascend(s: Keys)
    ensures
        cells_ascend(sorted_keys(s)),
        sorted_keys(s).to_multiset() == s.to_multiset(),
    decreases s.len(),
{
    if s.len() > 0 {
        let rest = s.drop_last();
        law_sorted_cells_ascend(rest);
        let done = sorted_keys(rest);
        let k = s.last();
        let at = key_place(done, k);
        lemma_key_place_splits(done, k);
        let t = done.insert(at, k);
        assert forall|i: int, j: int| 0 <= i < j < t.len() implies !key_before(
            #[trigger] t[j],
            #[trigger] t[i],
        ) by {
            let x = if i < at {
                i
            } else {
                i - 1
            };
            let y = if j < at {
                j
            } else {
                j - 1
            };
            if i == at {
                assert(t[j] == done[y]);
            } else if j == at {
                assert(t[i] == done[x]);
            } else {
                assert(t[i] == done[x] && t[j] == done[y]);
            }
        }
        vstd::seq_lib::to_multiset_build(rest, k);
        assert(rest.push(k) == s);
        assert(t.remove(at) == done);
        vstd::seq_lib::to_multiset_remove(t, at);
        t.to_multiset_ensures();
        assert(t.contains(t[at]));
        assert(t.to_multiset().remove(k).insert(k) =~= t.to_multiset());
    }
}

/// The first `n` of the given formulas worked out anew; those that cannot be worked out
/// keep their value.
pub open spec fn recalc_all(
    m: EngineModel,
    list: Keys,
    reason: Seq<char>,
    answers: Answers,
    fuel: nat,
    n: int,
) -> (EngineModel, Res<()>)
    decreases n,
{
    if n <= 0 {
        (m, Outcome::Value(()))
    } else {
        let done = recalc_all(m, list, reason, answers, fuel, n - 1);
        if !(done.1 is Value) {
            done
        } else {
            let k = list[n - 1];
            match formula_cell_value(done.0, k, answers, fuel) {
                Outcome::Value(value) => match eval::differ(
                    context(done.0, k.sheet, answers),
                    engine::value_or_empty(done.0.cells, k),
                    value,
                ) {
                    Outcome::Value(true) => (
                        recalculated(done.0, k, value, reason),
                        Outcome::Value(()),
                    ),
                    Outcome::Value(false) => done,
                    other => (done.0, eval::held(other)),
                },
                Outcome::Fail(_) => done,
                other => (done.0, eval::held(other)),
            }
        }
    }
}

proof fn lemma_recalc_stays_over(
    m: EngineModel,
    list: Keys,
    reason: Seq<char>,
    answers: Answers,
    fuel: nat,
    i: int,
    n: int,
)
    requires
        0 <= i <= n,
        !(recalc_all(m, list, reason, answers, fuel, i).1 is Value),
    ensures
        recalc_all(m, list, reason, answers, fuel, n) == recalc_all(
            m,
            list,
            reason,
            answers,
            fuel,
            i,
        ),
    decreases n,
{
    if i < n {
        lemma_recalc_stays_over(m, list, reason, answers, fuel, i, n - 1);
    }
}

impl SheetShadowEngine {
    fn recalculate_one(
        &mut self,
        k: &Key,
        reason: &str,
        answers: &Vec<(Ask, Reply)>,
        fuel: usize,
    ) -> (r: Outcome<()>)
        ensures
            (final(self).deep_view(), r.deep_view()) == recalc_all(
                old(self).deep_view(),
                seq![k.deep_view()],
                reason@,
                answers.deep_view(),
                fuel as nat,
                1,
            ),
            old(self).deep_view().wf() ==> final(self).deep_view().wf(),
    {
        reveal_with_fuel(recalc_all, 2);
        let old_value = engine::cell_or_empty(&self.cells, k);
        let value = match self.evaluate_formula_cell(k, answers, fuel) {
            Outcome::Value(value) => value,
            Outcome::Fail(_) => return Outcome::Value(()),
            other => return eval::hold(other),
        };
        let c = Ctx { sheet: &k.sheet, cells: &self.cells, answers };
        assert(c.deep_view() == context(self.deep_view(), k.sheet@, answers.deep_view()));
        match eval::values_differ(&c, &old_value, &value) {
            Outcome::Value(true) => {
                self.recalculate_cell(k, &value, reason);
                Outcome::Value(())
            },
            Outcome::Value(false) => Outcome::Value(()),
            other => eval::hold(other),
        }
    }

    fn recalculate_each(
        &mut self,
        list: &Vec<Key>,
        reason: &str,
        answers: &Vec<(Ask, Reply)>,
        fuel: usize,
    ) -> (r: Outcome<()>)
        ensures
            (final(self).deep_view(), r.deep_view()) == recalc_all(
                old(self).deep_view(),
                list.deep_view(),
                reason@,
                answers.deep_view(),
                fuel as nat,
                list.deep_view().len() as int,
            ),
            old(self).deep_view().wf() ==> final(self).deep_view().wf(),
    {
        reveal_with_fuel(recalc_all, 2);
        let ghost m = self.deep_view();
        let ghost all = list.deep_view();
        let mut i: usize = 0;
        while i < list.len()
            invariant
                i <= list.len(),
                all == list.deep_view(),
                m.wf() ==> self.deep_view().wf(),
                recalc_all(m, all, reason@, answers.deep_view(), fuel as nat, i as int) == (
                    self.deep_view(),
                    Outcome::<(), Seq<char>, Seq<Seq<char>>>::Value(()),
                ),
            decreases list.len() - i,
        {
            assert(all[i as int] == list@[i as int].deep_view());
            match self.recalculate_one(&list[i], reason, answers, fuel) {
                Outcome::Value(_) => {},
                other => {
                    proof {
                        lemma_recalc_stays_over(
                            m,
                            all,
                            reason@,
                            answers.deep_view(),
                            fuel as nat,
                            i + 1,
                            all.len() as int,
                        );
                    }
                    return other;
                },
            }
            i = i + 1;
        }
        Outcome::Value(())
    }

    pub fn recalculate_all_formulas(&mut self, reason: &str, answers: &Vec<(Ask, Reply)>, fuel: usize) -> (r:
        Outcome<()>)
        ensures
            (final(self).deep_view(), r.deep_view()) == recalc_all(
                old(self).deep_view(),
                formula_order(old(self).deep_view()),
                reason@,
                answers.deep_view(),
                fuel as nat,
                formula_order(old(self).deep_view()).len() as int,
            ),
            old(self).deep_view().wf() ==> final(self).deep_view().wf(),
    {
        let keys = sort_keys(&engine::formula_key_list(&self.formulas));
        assert(keys.deep_view().len() == keys.len());
        self.recalculate_each(&keys, reason, answers, fuel)
    }
}

/// Working out all formulas changes values, what is known of the cells and the trail, and
/// nothing else.
pub proof fn law_recalculating_all_changes_values_only(
    m: EngineModel,
    list: Keys,
    reason: Seq<char>,
    answers: Answers,
    fuel: nat,
    n: int,
)
    ensures
        ({
            let r = recalc_all(m, list, reason, answers, fuel, n).0;
            r == EngineModel {
                cells: r.cells,
                dirty: r.dirty,
                meta: r.meta,
                audit_events: r.audit_events,
                ..m
            }
        }),
    decreases n,
{
    if n > 0 {
        law_recalculating_all_changes_values_only(m, list, reason, answers, fuel, n - 1);
    }
}

// ----- Questions -----

impl SheetShadowEngine {
    pub fn formula_dependencies(&self, sheet: &str, row: usize, col: usize) -> (r: Result<
        Vec<Key>,
        ShadowError,
    >)
        ensures
            keys_view(r) == (match entries::get(
                self.deep_view().formulas,
                coord::key(sheet@, row, col),
            ) {
                Some(f) => Ok(sorted_keys(f.deps)),
                None => Err(coord::value_error("formula cell not found"@)),
            }),
    {
        match entries::map_get(&self.formulas, &coord::key_of(sheet, row, col)) {
            Some(f) => Ok(sort_keys(&f.deps)),
            None => Err(coord::refuse("formula cell not found")),
        }
    }

    pub fn formula_dependency_diagnostics(&self, sheet: &str, row: usize, col: usize) -> (r: Result<
        Vec<Fields>,
        ShadowError,
    >)
        ensures
            reports_view(r) == (match entries::get(
                self.deep_view().formulas,
                coord::key(sheet@, row, col),
            ) {
                Some(f) => Ok(
                    crate::diagnostics::formula_reports(
                        coord::key(sheet@, row, col),
                        f.formula,
                        self.deep_view().cells,
                        engine::formula_cells(self.deep_view().formulas),
                        self.deep_view().tables,
                        self.deep_view().defined_names,
                        engine::sheet_names(self.deep_view().sheets),
                    ),
                ),
                None => Err(coord::value_error("formula cell not found"@)),
            }),
    {
        let k = coord::key_of(sheet, row, col);
        match entries::map_get(&self.formulas, &k) {
            Some(f) => Ok(
                crate::diagnostics::formula_dependency_diagnostics(
                    &k,
                    &f.formula,
                    &self.cells,
                    &engine::formula_key_list(&self.formulas),
                    &self.tables,
                    &self.defined_names,
                    &engine::sheet_order(&self.sheets),
                ),
            ),
            None => Err(coord::refuse("formula cell not found")),
        }
    }
}

pub open spec fn keys_view(r: Result<Vec<Key>, ShadowError>) -> Fallible<Keys> {
    match r {
        Ok(v) => Ok(v.deep_view()),
        Err(e) => Err(e.deep_view()),
    }
}

pub open spec fn reports_view(r: Result<Vec<Fields>, ShadowError>) -> Fallible<ReportModel> {
    match r {
        Ok(v) => Ok(v.deep_view()),
        Err(e) => Err(e.deep_view()),
    }
}

} // verus!
