//! Changing what lies on the sheets: drawings, charts, sparklines, pivot tables, embedded
//! objects, comments and rules.

use crate::copies::Copied;
use crate::coord;
use crate::coord::{Key, ShadowError};
use crate::deps;
use crate::diagnostics::{Fields, FieldsModel};
use crate::drawings::DrawingsModel;
use crate::engine;
use crate::engine::{EngineModel, SheetShadowEngine};
use crate::entries;
use crate::highrisk::HighRiskModel;
use crate::inventory;
use crate::objects;
use crate::package;
use crate::package::Fallible;
use crate::pattern;
use crate::recalc;
use crate::records::{
    AuditEvent, AutoFilterRule, CellComment, ConditionalFormatRule, DataValidationRule,
    DrawingObject, HighRiskObject, ObjectRange,
};
use crate::sheetops;
use crate::styles;
use crate::text;
use vstd::prelude::*;
use vstd::string::*;

verus! {

/// What came of reading a file.
pub open spec fn bytes_view(r: Result<Vec<u8>, ShadowError>) -> Fallible<Seq<u8>> {
    match r {
        Ok(v) => Ok(v.deep_view()),
        Err(e) => Err(e.deep_view()),
    }
}

pub open spec fn refuse_with<T>(m: EngineModel, message: Seq<char>) -> (EngineModel, Fallible<T>) {
    (m, Err(coord::value_error(message)))
}

// ----- Finding objects -----

/// The place of the first drawing from `i` on with the given id on the sheet.
pub open spec fn drawing_place(s: DrawingsModel, sheet: Seq<char>, id: Seq<char>, i: int) -> Option<int>
    decreases s.len() - i,
{
    if i < 0 || i >= s.len() {
        None
    } else if s[i].sheet == sheet && s[i].object_id == id {
        Some(i)
    } else {
        drawing_place(s, sheet, id, i + 1)
    }
}

fn find_drawing(v: &Vec<DrawingObject>, sheet: &str, id: &str) -> (r: Option<usize>)
    ensures
        text::pos(r) == drawing_place(v.deep_view(), sheet@, id@, 0),
        r matches Some(i) ==> i < v.len(),
{
    let ghost all = v.deep_view();
    let mut i: usize = 0;
    while i < v.len()
        invariant
            i <= v.len(),
            all == v.deep_view(),
            drawing_place(all, sheet@, id@, 0) == drawing_place(all, sheet@, id@, i as int),
        decreases v.len() - i,
    {
        assert(all[i as int] == v@[i as int].deep_view());
        if text::same(&v[i].sheet, sheet) && text::same(&v[i].object_id, id) {
            return Some(i);
        }
        i = i + 1;
    }
    None
}

/// The place of the first object carried with care, from `i` on, with the given id on the
/// sheet.
pub open spec fn risk_place(s: HighRiskModel, sheet: Seq<char>, id: Seq<char>, i: int) -> Option<int>
    decreases s.len() - i,
{
    if i < 0 || i >= s.len() {
        None
    } else if s[i].sheet == sheet && s[i].object_id == id {
        Some(i)
    } else {
        risk_place(s, sheet, id, i + 1)
    }
}

pub fn find_risk(v: &Vec<HighRiskObject>, sheet: &str, id: &str) -> (r: Option<usize>)
    ensures
        text::pos(r) == risk_place(v.deep_view(), sheet@, id@, 0),
        r matches Some(i) ==> i < v.len(),
{
    let ghost all = v.deep_view();
    let mut i: usize = 0;
    while i < v.len()
        invariant
            i <= v.len(),
            all == v.deep_view(),
            risk_place(all, sheet@, id@, 0) == risk_place(all, sheet@, id@, i as int),
        decreases v.len() - i,
    {
        assert(all[i as int] == v@[i as int].deep_view());
        if text::same(&v[i].sheet, sheet) && text::same(&v[i].object_id, id) {
            return Some(i);
        }
        i = i + 1;
    }
    None
}

impl SheetShadowEngine {
    fn put_drawing(&mut self, i: usize, d: DrawingObject)
        requires
            i < old(self).drawing_objects.len(),
        ensures
            final(self).deep_view() == (EngineModel {
                drawing_objects: old(self).deep_view().drawing_objects.update(
                    i as int,
                    d.deep_view(),
                ),
                ..old(self).deep_view()
            }),
    {
        let ghost before = self.drawing_objects.deep_view();
        self.drawing_objects.set(i, d);
        assert(self.drawing_objects.deep_view() == before.update(i as int, d.deep_view()));
    }

    fn put_risk(&mut self, i: usize, o: HighRiskObject)
        requires
            i < old(self).high_risk_objects.len(),
        ensures
            final(self).deep_view() == (EngineModel {
                high_risk_objects: old(self).deep_view().high_risk_objects.update(
                    i as int,
                    o.deep_view(),
                ),
                ..old(self).deep_view()
            }),
    {
        let ghost before = self.high_risk_objects.deep_view();
        self.high_risk_objects.set(i, o);
        assert(self.high_risk_objects.deep_view() == before.update(i as int, o.deep_view()));
    }
}

// ----- Anchors of drawings -----

/// An end marker that keeps its distance from a start marker that moves.
pub open spec fn carried(end: Option<usize>, old_start: usize, start: usize) -> Option<usize> {
    match end {
        Some(n) => Some(
            objects::saturated(
                start + (if n > old_start {
                    n - old_start
                } else {
                    0
                }),
            ),
        ),
        None => None,
    }
}

fn carry(end: Option<usize>, old_start: usize, start: usize) -> (r: Option<usize>)
    ensures
        r == carried(end, old_start, start),
{
    match end {
        Some(n) => Some(
            start.saturating_add(
                if n > old_start {
                    n - old_start
                } else {
                    0
                },
            ),
        ),
        None => None,
    }
}

/// A drawing with its anchor elsewhere, noted for its part and in the trail.
pub open spec fn with_anchor(
    m: EngineModel,
    i: int,
    d: DrawingObject<Seq<char>>,
    sheet: Seq<char>,
    row: usize,
    col: usize,
    reason: Seq<char>,
) -> EngineModel {
    engine::logged(
        EngineModel {
            drawing_objects: m.drawing_objects.update(i, d),
            drawing_dirty_paths: entries::with(m.drawing_dirty_paths, d.drawing_path),
            ..m
        },
        objects::named_event(
            "drawing_anchor_update"@,
            sheet,
            row,
            col,
            objects::anchor_text(m.drawing_objects[i]),
            objects::anchor_text(d),
            d.object_id,
            reason,
        ),
    )
}

impl SheetShadowEngine {
    fn put_anchor(
        &mut self,
        i: usize,
        d: DrawingObject,
        sheet: &str,
        row: usize,
        col: usize,
        reason: &str,
    )
        requires
            i < old(self).drawing_objects.len(),
        ensures
            final(self).deep_view() == with_anchor(
                old(self).deep_view(),
                i as int,
                d.deep_view(),
                sheet@,
                row,
                col,
                reason@,
            ),
    {
        assert(self.drawing_objects.deep_view()[i as int]
            == self.drawing_objects@[i as int].deep_view());
        let before = self.drawing_objects[i].ref_text();
        let after = d.ref_text();
        let path = d.drawing_path.clone();
        let id = d.object_id.clone();
        self.put_drawing(i, d);
        entries::set_add(&mut self.drawing_dirty_paths, path);
        let told = objects::audit_event(
            "drawing_anchor_update",
            sheet,
            row,
            col,
            &before,
            &after,
            &id,
            reason,
        );
        self.log(told);
    }
}

pub open spec fn drawing_moved(
    m: EngineModel,
    sheet: Seq<char>,
    id: Seq<char>,
    row: usize,
    col: usize,
    reason: Seq<char>,
) -> (EngineModel, Fallible<()>) {
    match engine::target_refusal(m, sheet, row, col) {
        Some(message) => refuse_with(m, message),
        None => match drawing_place(m.drawing_objects, sheet, id, 0) {
            None => refuse_with(m, "drawing_object: object_id not found on sheet"@),
            Some(i) => {
                let d = m.drawing_objects[i];
                if d.anchor_kind == "absoluteAnchor"@ {
                    refuse_with(
                        m,
                        "unsafe_update: absoluteAnchor drawing objects cannot be moved by cell coordinates"@,
                    )
                } else {
                    match (d.from_row, d.from_col) {
                        (None, _) => refuse_with(m, "drawing_object: missing from row marker"@),
                        (Some(_), None) => refuse_with(
                            m,
                            "drawing_object: missing from col marker"@,
                        ),
                        (Some(old_row), Some(old_col)) => (
                            with_anchor(
                                m,
                                i,
                                DrawingObject {
                                    to_row: carried(d.to_row, old_row, row),
                                    to_col: carried(d.to_col, old_col, col),
                                    from_row: Some(row),
                                    from_col: Some(col),
                                    ..d
                                },
                                sheet,
                                row,
                                col,
                                reason,
                            ),
                            Ok(()),
                        ),
                    }
                }
            },
        },
    }
}

/// Whether a drawing has all four markers, and its end is not before its start.
pub open spec fn has_extent(d: DrawingObject<Seq<char>>) -> bool {
    match (d.from_row, d.from_col, d.to_row, d.to_col) {
        (Some(a), Some(b), Some(c), Some(e)) => a <= c && b <= e,
        _ => false,
    }
}

/// A drawing that is moved begins at the given cell and keeps its extent, as far as the
/// machine's bound allows, and no other drawing changes; one that is anchored to no cell is
/// refused, and nothing changes.
pub proof fn law_moved_drawings_keep_their_extent(
    m: EngineModel,
    sheet: Seq<char>,
    id: Seq<char>,
    row: usize,
    col: usize,
    reason: Seq<char>,
)
    requires
        engine::target_refusal(m, sheet, row, col) is None,
        drawing_place(m.drawing_objects, sheet, id, 0) is Some,
    ensures
        ({
            let i = drawing_place(m.drawing_objects, sheet, id, 0)->Some_0;
            let d = m.drawing_objects[i];
            let (next, told) = drawing_moved(m, sheet, id, row, col, reason);
            let moved = next.drawing_objects[i];
            &&& d.anchor_kind == "absoluteAnchor"@ ==> told is Err && next == m
            &&& d.anchor_kind != "absoluteAnchor"@ && has_extent(d) ==> {
                &&& told is Ok
                &&& moved.from_row == Some(row) && moved.from_col == Some(col)
                &&& row + (d.to_row->Some_0 - d.from_row->Some_0) <= usize::MAX
                    ==> moved.to_row->Some_0 - row == d.to_row->Some_0 - d.from_row->Some_0
                &&& col + (d.to_col->Some_0 - d.from_col->Some_0) <= usize::MAX
                    ==> moved.to_col->Some_0 - col == d.to_col->Some_0 - d.from_col->Some_0
                &&& next.drawing_objects.len() == m.drawing_objects.len()
                &&& forall|j: int|
                    0 <= j < m.drawing_objects.len() && j != i
                        ==> #[trigger] next.drawing_objects[j] == m.drawing_objects[j]
            }
        }),
{
    lemma_drawing_place(m.drawing_objects, sheet, id, 0);
}

/// A drawing that is moved and then moved back has the markers that it had, where its end
/// was not before its start and the move did not run into the machine's bound.
pub proof fn law_moving_a_drawing_back_restores_it(
    m: EngineModel,
    sheet: Seq<char>,
    id: Seq<char>,
    row: usize,
    col: usize,
    reason: Seq<char>,
    other: Seq<char>,
)
    requires
        drawing_moved(m, sheet, id, row, col, reason).1 is Ok,
        ({
            let d = m.drawing_objects[drawing_place(m.drawing_objects, sheet, id, 0)->Some_0];
            &&& d.from_row->Some_0 > 0 && d.from_col->Some_0 > 0
            &&& d.to_row matches Some(n) ==> n >= d.from_row->Some_0 && row + n
                - d.from_row->Some_0 <= usize::MAX
            &&& d.to_col matches Some(n) ==> n >= d.from_col->Some_0 && col + n
                - d.from_col->Some_0 <= usize::MAX
        }),
    ensures
        ({
            let d = m.drawing_objects[drawing_place(m.drawing_objects, sheet, id, 0)->Some_0];
            let there = drawing_moved(m, sheet, id, row, col, reason).0;
            let back = drawing_moved(
                there,
                sheet,
                id,
                d.from_row->Some_0,
                d.from_col->Some_0,
                other,
            );
            back.1 is Ok && back.0.drawing_objects == m.drawing_objects
        }),
{
    let i = drawing_place(m.drawing_objects, sheet, id, 0)->Some_0;
    let there = drawing_moved(m, sheet, id, row, col, reason).0;
    lemma_drawing_place(m.drawing_objects, sheet, id, 0);
    lemma_drawing_stays_in_place(m.drawing_objects, there.drawing_objects, sheet, id, 0);
    let d = m.drawing_objects[i];
    let back = drawing_moved(there, sheet, id, d.from_row->Some_0, d.from_col->Some_0, other).0;
    assert(back.drawing_objects[i] == d);
    assert(back.drawing_objects =~= m.drawing_objects);
}

proof fn lemma_drawing_place(s: DrawingsModel, sheet: Seq<char>, id: Seq<char>, i: int)
    requires
        0 <= i,
    ensures
        drawing_place(s, sheet, id, i) matches Some(n) ==> i <= n < s.len() && s[n].sheet == sheet
            && s[n].object_id == id,
    decreases s.len() - i,
{
    if i < s.len() {
        lemma_drawing_place(s, sheet, id, i + 1);
    }
}

proof fn lemma_drawing_stays_in_place(
    s: DrawingsModel,
    t: DrawingsModel,
    sheet: Seq<char>,
    id: Seq<char>,
    i: int,
)
    requires
        0 <= i,
        s.len() == t.len(),
        forall|n: int|
            0 <= n < s.len() ==> (#[trigger] s[n]).sheet == t[n].sheet && s[n].object_id
                == t[n].object_id,
    ensures
        drawing_place(t, sheet, id, i) == drawing_place(s, sheet, id, i),
    decreases s.len() - i,
{
    if i < s.len() {
        lemma_drawing_stays_in_place(s, t, sheet, id, i + 1);
    }
}

pub open spec fn drawing_resized(
    m: EngineModel,
    sheet: Seq<char>,
    id: Seq<char>,
    row: usize,
    col: usize,
    reason: Seq<char>,
) -> (EngineModel, Fallible<()>) {
    match engine::target_refusal(m, sheet, row, col) {
        Some(message) => refuse_with(m, message),
        None => match drawing_place(m.drawing_objects, sheet, id, 0) {
            None => refuse_with(m, "drawing_object: object_id not found on sheet"@),
            Some(i) => {
                let d = m.drawing_objects[i];
                if d.anchor_kind != "twoCellAnchor"@ {
                    refuse_with(
                        m,
                        "unsafe_update: resize currently requires a twoCellAnchor drawing object"@,
                    )
                } else {
                    match (d.from_row, d.from_col) {
                        (None, _) => refuse_with(m, "drawing_object: missing from row marker"@),
                        (Some(_), None) => refuse_with(
                            m,
                            "drawing_object: missing from col marker"@,
                        ),
                        (Some(from_row), Some(from_col)) => if row < from_row || col < from_col {
                            refuse_with(
                                m,
                                "unsafe_update: resized drawing end marker must be at or after the start marker"@,
                            )
                        } else {
                            (
                                with_anchor(
                                    m,
                                    i,
                                    DrawingObject { to_row: Some(row), to_col: Some(col), ..d },
                                    sheet,
                                    from_row,
                                    from_col,
                                    reason,
                                ),
                                Ok(()),
                            )
                        },
                    }
                }
            },
        },
    }
}

impl SheetShadowEngine {
    pub fn apply_move_drawing_object(
        &mut self,
        sheet: &str,
        object_id: &str,
        start_row: usize,
        start_col: usize,
        reason: &str,
    ) -> (r: Result<(), ShadowError>)
        ensures
            (final(self).deep_view(), coord::outcome(r)) == drawing_moved(
                old(self).deep_view(),
                sheet@,
                object_id@,
                start_row,
                start_col,
                reason@,
            ),
            old(self).deep_view().wf() ==> final(self).deep_view().wf(),
    {
        proof {
            lemma_drawing_moved_stays_valid(
                self.deep_view(),
                sheet@,
                object_id@,
                start_row,
                start_col,
                reason@,
            );
        }
        match self.target_refused(sheet, start_row, start_col) {
            Some(message) => return Err(ShadowError::Value(message)),
            None => {},
        }
        let i = match find_drawing(&self.drawing_objects, sheet, object_id) {
            Some(i) => i,
            None => return Err(coord::refuse("drawing_object: object_id not found on sheet")),
        };
        assert(self.drawing_objects.deep_view()[i as int]
            == self.drawing_objects@[i as int].deep_view());
        let mut d = self.drawing_objects[i].clone();
        if text::same(&d.anchor_kind, "absoluteAnchor") {
            return Err(
                coord::refuse(
                    "unsafe_update: absoluteAnchor drawing objects cannot be moved by cell coordinates",
                ),
            );
        }
        let old_row = match d.from_row {
            Some(n) => n,
            None => return Err(coord::refuse("drawing_object: missing from row marker")),
        };
        let old_col = match d.from_col {
            Some(n) => n,
            None => return Err(coord::refuse("drawing_object: missing from col marker")),
        };
        d.to_row = carry(d.to_row, old_row, start_row);
        d.to_col = carry(d.to_col, old_col, start_col);
        d.from_row = Some(start_row);
        d.from_col = Some(start_col);
        self.put_anchor(i, d, sheet, start_row, start_col, reason);
        Ok(())
    }

    fn apply_resize_drawing_object(
        &mut self,
        sheet: &str,
        object_id: &str,
        end_row: usize,
        end_col: usize,
        reason: &str,
    ) -> (r: Result<(), ShadowError>)
        ensures
            (final(self).deep_view(), coord::outcome(r)) == drawing_resized(
                old(self).deep_view(),
                sheet@,
                object_id@,
                end_row,
                end_col,
                reason@,
            ),
    {
        match self.target_refused(sheet, end_row, end_col) {
            Some(message) => return Err(ShadowError::Value(message)),
            None => {},
        }
        let i = match find_drawing(&self.drawing_objects, sheet, object_id) {
            Some(i) => i,
            None => return Err(coord::refuse("drawing_object: object_id not found on sheet")),
        };
        assert(self.drawing_objects.deep_view()[i as int]
            == self.drawing_objects@[i as int].deep_view());
        let mut d = self.drawing_objects[i].clone();
        if !text::same(&d.anchor_kind, "twoCellAnchor") {
            return Err(
                coord::refuse(
                    "unsafe_update: resize currently requires a twoCellAnchor drawing object",
                ),
            );
        }
        let from_row = match d.from_row {
            Some(n) => n,
            None => return Err(coord::refuse("drawing_object: missing from row marker")),
        };
        let from_col = match d.from_col {
            Some(n) => n,
            None => return Err(coord::refuse("drawing_object: missing from col marker")),
        };
        if end_row < from_row || end_col < from_col {
            return Err(
                coord::refuse(
                    "unsafe_update: resized drawing end marker must be at or after the start marker",
                ),
            );
        }
        d.to_row = Some(end_row);
        d.to_col = Some(end_col);
        self.put_anchor(i, d, sheet, from_row, from_col, reason);
        Ok(())
    }
}

// ----- Images, texts and charts -----

/// The drawing that a request is about, where it can be changed.
pub open spec fn editable_drawing(m: EngineModel, sheet: Seq<char>, id: Seq<char>) -> Result<
    DrawingObject<Seq<char>>,
    Seq<char>,
> {
    match drawing_place(m.drawing_objects, sheet, id, 0) {
        None => Err("drawing_object: object_id not found on sheet"@),
        Some(i) => if !m.drawing_objects[i].relationship_valid {
            Err("drawing_relationship_resolution: drawing object relationship is invalid"@)
        } else {
            Ok(m.drawing_objects[i])
        },
    }
}

pub open spec fn drawing_view(r: Result<DrawingObject, String>) -> Result<
    DrawingObject<Seq<char>>,
    Seq<char>,
> {
    match r {
        Ok(d) => Ok(d.deep_view()),
        Err(m) => Err(m@),
    }
}

/// Whether what a drawing shows is a part of the package, which can be written.
pub open spec fn target_writable(d: DrawingObject<Seq<char>>) -> bool {
    !d.target_external && d.target_path.len() > 0 && d.target_exists
}

fn is_target_writable(d: &DrawingObject) -> (r: bool)
    ensures
        r == target_writable(d.deep_view()),
{
    !d.target_external && !d.target_path.as_str().is_empty() && d.target_exists
}

pub open spec fn editable_chart(m: EngineModel, sheet: Seq<char>, id: Seq<char>) -> Result<
    DrawingObject<Seq<char>>,
    Seq<char>,
> {
    match editable_drawing(m, sheet, id) {
        Err(message) => Err(message),
        Ok(d) => if d.object_type != "chart"@ {
            Err("unsafe_update: chart operation requires a chart drawing object"@)
        } else if !target_writable(d) {
            Err("drawing_relationship_resolution: chart target part is missing"@)
        } else {
            Ok(d)
        },
    }
}

/// A change to what a drawing shows, in the trail.
pub open spec fn drawing_event(
    kind: Seq<char>,
    sheet: Seq<char>,
    d: DrawingObject<Seq<char>>,
    before: Seq<char>,
    after: Seq<char>,
    id: Seq<char>,
    reason: Seq<char>,
) -> AuditEvent<Seq<char>> {
    objects::named_event(
        kind,
        sheet,
        objects::line_or_zero(d.from_row),
        objects::line_or_zero(d.from_col),
        before,
        after,
        id,
        reason,
    )
}

pub open spec fn image_replaced(
    m: EngineModel,
    sheet: Seq<char>,
    id: Seq<char>,
    path: Seq<char>,
    bytes: Fallible<Seq<u8>>,
    reason: Seq<char>,
) -> (EngineModel, Fallible<()>) {
    match editable_drawing(m, sheet, id) {
        Err(message) => refuse_with(m, message),
        Ok(d) => if d.object_type != "image"@ {
            refuse_with(m, "unsafe_update: replace_image requires an image drawing object"@)
        } else if !target_writable(d) {
            refuse_with(m, "drawing_relationship_resolution: image target part is missing"@)
        } else {
            match bytes {
                Err(e) => (m, Err(e)),
                Ok(data) => if data.len() == 0 {
                    refuse_with(m, "unsafe_update: replacement image must not be empty"@)
                } else {
                    (
                        engine::logged(
                            EngineModel {
                                image_replacements: entries::put(
                                    m.image_replacements,
                                    d.target_path,
                                    data,
                                ),
                                ..m
                            },
                            drawing_event(
                                "drawing_image_replace"@,
                                sheet,
                                d,
                                d.target_path,
                                path,
                                id,
                                reason,
                            ),
                        ),
                        Ok(()),
                    )
                },
            }
        },
    }
}

pub open spec fn drawing_text_updated(
    m: EngineModel,
    sheet: Seq<char>,
    id: Seq<char>,
    value: Seq<char>,
    reason: Seq<char>,
) -> (EngineModel, Fallible<()>) {
    if text::trim(value).len() == 0 {
        refuse_with(m, "unsafe_update: drawing text must not be empty"@)
    } else {
        match editable_drawing(m, sheet, id) {
            Err(message) => refuse_with(m, message),
            Ok(d) => if d.object_type != "shape"@ && d.object_type != "drawing"@ {
                refuse_with(
                    m,
                    "unsafe_update: update_drawing_text requires a shape/textbox drawing object"@,
                )
            } else {
                (
                    engine::logged(
                        EngineModel {
                            drawing_text_updates: entries::put(
                                m.drawing_text_updates,
                                d.object_id,
                                value,
                            ),
                            drawing_dirty_paths: entries::with(
                                m.drawing_dirty_paths,
                                d.drawing_path,
                            ),
                            ..m
                        },
                        drawing_event(
                            "drawing_text_update"@,
                            sheet,
                            d,
                            d.object_type,
                            value,
                            id,
                            reason,
                        ),
                    ),
                    Ok(()),
                )
            },
        }
    }
}

pub open spec fn chart_title_updated(
    m: EngineModel,
    sheet: Seq<char>,
    id: Seq<char>,
    title: Seq<char>,
    reason: Seq<char>,
) -> (EngineModel, Fallible<()>) {
    if text::trim(title).len() == 0 {
        refuse_with(m, "unsafe_update: chart title must not be empty"@)
    } else {
        match editable_chart(m, sheet, id) {
            Err(message) => refuse_with(m, message),
            Ok(d) => (
                engine::logged(
                    EngineModel {
                        chart_title_updates: entries::put(
                            m.chart_title_updates,
                            d.target_path,
                            title,
                        ),
                        ..m
                    },
                    drawing_event(
                        "chart_title_update"@,
                        sheet,
                        d,
                        d.target_path,
                        title,
                        id,
                        reason,
                    ),
                ),
                Ok(()),
            ),
        }
    }
}

pub open spec fn source_pattern() -> Seq<char> {
    r"(?i)^(?:'[^']+'|[A-Za-z_][A-Za-z0-9_ ]*)!\$?[A-Z]{1,3}\$?[0-9]+(?::\$?[A-Z]{1,3}\$?[0-9]+)?$"@
}

/// The range that a chart is to show, or why it is refused.
pub open spec fn source_range(s: Seq<char>) -> Result<Seq<char>, Seq<char>> {
    let t = text::trim(s);
    if t.len() == 0 || text::contains(t, "<"@) || text::contains(t, ">"@) {
        Err("unsafe_update: chart source range must be a non-empty A1 range"@)
    } else if pattern::first_match(source_pattern(), t) is None {
        Err("unsafe_update: chart source range must include an explicit sheet and A1 range"@)
    } else {
        Ok(t)
    }
}

pub fn normalize_chart_source_range(source_range_text: &str) -> (r: Result<String, String>)
    ensures
        package::text_view(r) == source_range(source_range_text@),
{
    let t = text::trimmed(source_range_text);
    if t.as_str().is_empty() || text::has(&t, "<") || text::has(&t, ">") {
        return Err("unsafe_update: chart source range must be a non-empty A1 range".to_owned());
    }
    if !pattern::is_match(
        r"(?i)^(?:'[^']+'|[A-Za-z_][A-Za-z0-9_ ]*)!\$?[A-Z]{1,3}\$?[0-9]+(?::\$?[A-Z]{1,3}\$?[0-9]+)?$",
        &t,
    ) {
        return Err(
            "unsafe_update: chart source range must include an explicit sheet and A1 range".to_owned(),
        );
    }
    Ok(t)
}

pub open spec fn chart_source_updated(
    m: EngineModel,
    sheet: Seq<char>,
    id: Seq<char>,
    range: Seq<char>,
    reason: Seq<char>,
) -> (EngineModel, Fallible<()>) {
    match source_range(range) {
        Err(message) => refuse_with(m, message),
        Ok(t) => match editable_chart(m, sheet, id) {
            Err(message) => refuse_with(m, message),
            Ok(d) => (
                engine::logged(
                    EngineModel {
                        chart_source_updates: entries::put(
                            m.chart_source_updates,
                            d.target_path,
                            t,
                        ),
                        ..m
                    },
                    drawing_event(
                        "chart_source_update"@,
                        sheet,
                        d,
                        d.target_path,
                        t,
                        id,
                        reason,
                    ),
                ),
                Ok(()),
            ),
        },
    }
}

fn drawing_event_of(
    kind: &str,
    sheet: &str,
    d: &DrawingObject,
    before: &str,
    after: &str,
    id: &str,
    reason: &str,
) -> (r: AuditEvent)
    ensures
        r.deep_view() == drawing_event(
            kind@,
            sheet@,
            d.deep_view(),
            before@,
            after@,
            id@,
            reason@,
        ),
{
    objects::audit_event(
        kind,
        sheet,
        objects::or_zero(d.from_row),
        objects::or_zero(d.from_col),
        before,
        after,
        id,
        reason,
    )
}

impl SheetShadowEngine {
    pub fn drawing_object_for_edit(&self, sheet: &str, object_id: &str) -> (r: Result<
        DrawingObject,
        String,
    >)
        ensures
            drawing_view(r) == editable_drawing(self.deep_view(), sheet@, object_id@),
    {
        match find_drawing(&self.drawing_objects, sheet, object_id) {
            Some(i) => {
                assert(self.drawing_objects.deep_view()[i as int]
                    == self.drawing_objects@[i as int].deep_view());
                if !self.drawing_objects[i].relationship_valid {
                    Err(
                        "drawing_relationship_resolution: drawing object relationship is invalid".to_owned(),
                    )
                } else {
                    Ok(self.drawing_objects[i].clone())
                }
            },
            None => Err("drawing_object: object_id not found on sheet".to_owned()),
        }
    }

    pub fn chart_object_for_edit(&self, sheet: &str, object_id: &str) -> (r: Result<
        DrawingObject,
        String,
    >)
        ensures
            drawing_view(r) == editable_chart(self.deep_view(), sheet@, object_id@),
    {
        let d = match self.drawing_object_for_edit(sheet, object_id) {
            Ok(d) => d,
            Err(message) => return Err(message),
        };
        if !text::same(&d.object_type, "chart") {
            return Err(
                "unsafe_update: chart operation requires a chart drawing object".to_owned(),
            );
        }
        if !is_target_writable(&d) {
            return Err(
                "drawing_relationship_resolution: chart target part is missing".to_owned(),
            );
        }
        Ok(d)
    }

    fn apply_replace_image(
        &mut self,
        sheet: &str,
        object_id: &str,
        image_path: &str,
        bytes: &Result<Vec<u8>, ShadowError>,
        reason: &str,
    ) -> (r: Result<(), ShadowError>)
        ensures
            (final(self).deep_view(), coord::outcome(r)) == image_replaced(
                old(self).deep_view(),
                sheet@,
                object_id@,
                image_path@,
                bytes_view(*bytes),
                reason@,
            ),
    {
        let d = match self.drawing_object_for_edit(sheet, object_id) {
            Ok(d) => d,
            Err(message) => return Err(ShadowError::Value(message)),
        };
        if !text::same(&d.object_type, "image") {
            return Err(
                coord::refuse("unsafe_update: replace_image requires an image drawing object"),
            );
        }
        if !is_target_writable(&d) {
            return Err(
                coord::refuse("drawing_relationship_resolution: image target part is missing"),
            );
        }
        let data = match bytes {
            Ok(data) => data,
            Err(e) => return Err(e.clone()),
        };
        assert(data.deep_view().len() == data.len());
        if data.len() == 0 {
            return Err(coord::refuse("unsafe_update: replacement image must not be empty"));
        }
        entries::map_put(&mut self.image_replacements, d.target_path.clone(), data.copied());
        let told = drawing_event_of(
            "drawing_image_replace",
            sheet,
            &d,
            &d.target_path,
            image_path,
            object_id,
            reason,
        );
        self.log(told);
        Ok(())
    }

    fn apply_update_drawing_text(&mut self, sheet: &str, object_id: &str, value: &str, reason: &str) -> (r:
        Result<(), ShadowError>)
        ensures
            (final(self).deep_view(), coord::outcome(r)) == drawing_text_updated(
                old(self).deep_view(),
                sheet@,
                object_id@,
                value@,
                reason@,
            ),
    {
        if text::trimmed(value).as_str().is_empty() {
            return Err(coord::refuse("unsafe_update: drawing text must not be empty"));
        }
        let d = match self.drawing_object_for_edit(sheet, object_id) {
            Ok(d) => d,
            Err(message) => return Err(ShadowError::Value(message)),
        };
        if !text::same(&d.object_type, "shape") && !text::same(&d.object_type, "drawing") {
            return Err(
                coord::refuse(
                    "unsafe_update: update_drawing_text requires a shape/textbox drawing object",
                ),
            );
        }
        entries::map_put(&mut self.drawing_text_updates, d.object_id.clone(), value.to_owned());
        entries::set_add(&mut self.drawing_dirty_paths, d.drawing_path.clone());
        let told = drawing_event_of(
            "drawing_text_update",
            sheet,
            &d,
            &d.object_type,
            value,
            object_id,
            reason,
        );
        self.log(told);
        Ok(())
    }

    fn apply_update_chart_title(&mut self, sheet: &str, object_id: &str, title: &str, reason: &str) -> (r:
        Result<(), ShadowError>)
        ensures
            (final(self).deep_view(), coord::outcome(r)) == chart_title_updated(
                old(self).deep_view(),
                sheet@,
                object_id@,
                title@,
                reason@,
            ),
    {
        if text::trimmed(title).as_str().is_empty() {
            return Err(coord::refuse("unsafe_update: chart title must not be empty"));
        }
        let d = match self.chart_object_for_edit(sheet, object_id) {
            Ok(d) => d,
            Err(message) => return Err(ShadowError::Value(message)),
        };
        entries::map_put(&mut self.chart_title_updates, d.target_path.clone(), title.to_owned());
        let told = drawing_event_of(
            "chart_title_update",
            sheet,
            &d,
            &d.target_path,
            title,
            object_id,
            reason,
        );
        self.log(told);
        Ok(())
    }

    fn apply_update_chart_source(
        &mut self,
        sheet: &str,
        object_id: &str,
        range: &str,
        reason: &str,
    ) -> (r: Result<(), ShadowError>)
        ensures
            (final(self).deep_view(), coord::outcome(r)) == chart_source_updated(
                old(self).deep_view(),
                sheet@,
                object_id@,
                range@,
                reason@,
            ),
    {
        let t = match normalize_chart_source_range(range) {
            Ok(t) => t,
            Err(message) => return Err(ShadowError::Value(message)),
        };
        let d = match self.chart_object_for_edit(sheet, object_id) {
            Ok(d) => d,
            Err(message) => return Err(ShadowError::Value(message)),
        };
        entries::map_put(&mut self.chart_source_updates, d.target_path.clone(), t.clone());
        let told = drawing_event_of(
            "chart_source_update",
            sheet,
            &d,
            &d.target_path,
            &t,
            object_id,
            reason,
        );
        self.log(told);
        Ok(())
    }
}

// ----- Sparklines, pivot tables and embedded objects -----

pub open spec fn sparkline_updated(
    m: EngineModel,
    sheet: Seq<char>,
    id: Seq<char>,
    source: Seq<char>,
    reason: Seq<char>,
) -> (EngineModel, Fallible<()>) {
    let t = text::trim(source);
    match engine::target_refusal(m, sheet, 1, 1) {
        Some(message) => refuse_with(m, message),
        None => if t.len() == 0 {
            refuse_with(m, "unsafe_update: sparkline source_formula must not be empty"@)
        } else {
            match risk_place(m.high_risk_objects, sheet, id, 0) {
                None => refuse_with(
                    m,
                    "high_risk_object_not_found: object_id not found on sheet"@,
                ),
                Some(i) => {
                    let o = m.high_risk_objects[i];
                    if o.object_type != "sparkline"@ {
                        refuse_with(
                            m,
                            "unsafe_update: high-risk edit only supports sparkline update_source"@,
                        )
                    } else if o.source_formula.len() == 0 {
                        refuse_with(
                            m,
                            "unsafe_update: sparkline source formula could not be read safely"@,
                        )
                    } else {
                        (
                            engine::logged(
                                EngineModel {
                                    high_risk_objects: m.high_risk_objects.update(
                                        i,
                                        HighRiskObject { source_formula: t, ..o },
                                    ),
                                    sparkline_source_updates: entries::put(
                                        m.sparkline_source_updates,
                                        id,
                                        t,
                                    ),
                                    sparkline_dirty_sheets: entries::with(
                                        m.sparkline_dirty_sheets,
                                        sheet,
                                    ),
                                    sparkline_dirty_objects: entries::with(
                                        m.sparkline_dirty_objects,
                                        id,
                                    ),
                                    ..m
                                },
                                objects::named_event(
                                    "sparkline_source_update"@,
                                    sheet,
                                    0,
                                    0,
                                    o.source_formula,
                                    t,
                                    id,
                                    reason + ":sqref="@ + o.ref_text,
                                ),
                            ),
                            Ok(()),
                        )
                    }
                },
            }
        },
    }
}

pub open spec fn any_control(s: Seq<char>) -> bool {
    exists|i: int| 0 <= i < s.len() && text::is_control(#[trigger] s[i])
}

fn has_control(s: &Vec<char>) -> (r: bool)
    ensures
        r == any_control(s@),
{
    let mut i: usize = 0;
    while i < s.len()
        invariant
            i <= s.len(),
            forall|k: int| 0 <= k < i ==> !text::is_control(#[trigger] s@[k]),
        decreases s.len() - i,
    {
        if text::control(s[i]) {
            assert(text::is_control(s@[i as int]));
            return true;
        }
        i = i + 1;
    }
    false
}

/// A text for a pivot table, or why it is refused.
pub open spec fn pivot_text(value: Option<Seq<char>>, label: Seq<char>) -> Result<
    Option<Seq<char>>,
    Seq<char>,
> {
    match value {
        None => Ok(None),
        Some(t) => {
            let n = text::trim(t);
            if n.len() == 0 {
                Err("unsafe_update: "@ + label + " must not be empty"@)
            } else if any_control(n) {
                Err("unsafe_update: "@ + label + " must not contain control characters"@)
            } else {
                Ok(Some(n))
            }
        },
    }
}

pub open spec fn pivot_text_view(r: Result<Option<String>, String>) -> Result<
    Option<Seq<char>>,
    Seq<char>,
> {
    match r {
        Ok(v) => Ok(v.deep_view()),
        Err(m) => Err(m@),
    }
}

pub fn normalize_optional_pivot_text(value: &Option<String>, label: &str) -> (r: Result<
    Option<String>,
    String,
>)
    ensures
        pivot_text_view(r) == pivot_text(value.deep_view(), label@),
{
    match value {
        None => Ok(None),
        Some(t) => {
            let n = text::trimmed(t);
            if n.as_str().is_empty() {
                let mut m = "unsafe_update: ".to_owned();
                m.append(label);
                m.append(" must not be empty");
                Err(m)
            } else if has_control(&text::chars_of(&n)) {
                let mut m = "unsafe_update: ".to_owned();
                m.append(label);
                m.append(" must not contain control characters");
                Err(m)
            } else {
                Ok(Some(n))
            }
        },
    }
}

/// Whether the part that an object stands for can be written.
pub open spec fn part_writable(o: HighRiskObject<Seq<char>>) -> bool {
    !package::is_external(o.target_mode) && o.target_path.len() > 0 && o.target_exists
}

fn is_part_writable(o: &HighRiskObject) -> (r: bool)
    ensures
        r == part_writable(o.deep_view()),
{
    !package::external(&o.target_mode) && !o.target_path.as_str().is_empty() && o.target_exists
}

/// The place of the pivot table that a request is about, where it can be changed.
pub open spec fn editable_pivot(m: EngineModel, sheet: Seq<char>, id: Seq<char>) -> Result<int, Seq<char>> {
    match risk_place(m.high_risk_objects, sheet, id, 0) {
        None => Err("high_risk_object_not_found: object_id not found on sheet"@),
        Some(i) => {
            let o = m.high_risk_objects[i];
            if o.object_type != "pivot_table"@ {
                Err("unsafe_update: pivot metadata update requires a pivot_table object"@)
            } else if !part_writable(o) {
                Err("unsafe_update: pivot target part is not safely writable"@)
            } else if o.cache_path.len() == 0 || !o.cache_exists {
                Err(
                    "unsafe_update: pivot cache relationship must be valid before metadata write"@,
                )
            } else if o.invalid_reason.len() > 0 {
                Err("unsafe_update: pivot object is invalid: "@ + o.invalid_reason)
            } else {
                Ok(i)
            }
        },
    }
}

/// The place of the embedded object that a request is about, where it can be replaced.
pub open spec fn editable_ole(m: EngineModel, sheet: Seq<char>, id: Seq<char>) -> Result<int, Seq<char>> {
    match risk_place(m.high_risk_objects, sheet, id, 0) {
        None => Err("high_risk_object_not_found: object_id not found on sheet"@),
        Some(i) => {
            let o = m.high_risk_objects[i];
            if o.object_type != "ole_object"@ {
                Err("unsafe_update: OLE replacement requires an ole_object"@)
            } else if !part_writable(o) {
                Err("unsafe_update: OLE target part is not safely replaceable"@)
            } else if o.ole_extension.len() == 0 {
                Err("unsafe_update: OLE target extension must be known before replacement"@)
            } else if o.invalid_reason.len() > 0 {
                Err("unsafe_update: OLE object is invalid: "@ + o.invalid_reason)
            } else {
                Ok(i)
            }
        },
    }
}

pub open spec fn place_view(r: Result<usize, String>) -> Result<int, Seq<char>> {
    match r {
        Ok(i) => Ok(i as int),
        Err(m) => Err(m@),
    }
}

pub open spec fn pivot_account(name: Seq<char>, caption: Seq<char>) -> Seq<char> {
    "name="@ + name + ";data_caption="@ + caption
}

fn pivot_account_of(name: &str, caption: &str) -> (r: String)
    ensures
        r@ == pivot_account(name@, caption@),
{
    let mut out = "name=".to_owned();
    out.append(name);
    out.append(";data_caption=");
    out.append(caption);
    out
}

pub open spec fn pivot_updated(
    m: EngineModel,
    sheet: Seq<char>,
    id: Seq<char>,
    name: Option<Seq<char>>,
    caption: Option<Seq<char>>,
    reason: Seq<char>,
) -> (EngineModel, Fallible<()>) {
    match engine::target_refusal(m, sheet, 1, 1) {
        Some(message) => refuse_with(m, message),
        None => match (
            pivot_text(name, "pivot name"@),
            pivot_text(caption, "pivot data caption"@),
        ) {
            (Err(message), _) => refuse_with(m, message),
            (Ok(_), Err(message)) => refuse_with(m, message),
            (Ok(new_name), Ok(new_caption)) => if new_name is None && new_caption is None {
                refuse_with(
                    m,
                    "unsafe_update: pivot metadata update requires name or data_caption"@,
                )
            } else {
                match editable_pivot(m, sheet, id) {
                    Err(message) => refuse_with(m, message),
                    Ok(i) => {
                        let o = m.high_risk_objects[i];
                        let next = HighRiskObject {
                            name: package::or_text(new_name, o.name),
                            pivot_data_caption: package::or_text(
                                new_caption,
                                o.pivot_data_caption,
                            ),
                            ..o
                        };
                        (
                            engine::logged(
                                EngineModel {
                                    high_risk_objects: m.high_risk_objects.update(i, next),
                                    pivot_dirty_paths: entries::with(
                                        m.pivot_dirty_paths,
                                        o.target_path,
                                    ),
                                    ..m
                                },
                                objects::named_event(
                                    "pivot_metadata_update"@,
                                    sheet,
                                    0,
                                    0,
                                    pivot_account(o.name, o.pivot_data_caption),
                                    pivot_account(next.name, next.pivot_data_caption),
                                    id,
                                    reason + ":target="@ + o.target_path,
                                ),
                            ),
                            Ok(()),
                        )
                    },
                }
            },
        },
    }
}

/// The size of some bytes.
pub open spec fn byte_count(data: Seq<u8>) -> u64 {
    data.len() as u64
}

pub open spec fn ole_replaced(
    m: EngineModel,
    sheet: Seq<char>,
    id: Seq<char>,
    path: Seq<char>,
    bytes: Fallible<Seq<u8>>,
    reason: Seq<char>,
) -> (EngineModel, Fallible<()>) {
    match engine::target_refusal(m, sheet, 1, 1) {
        Some(message) => refuse_with(m, message),
        None => match editable_ole(m, sheet, id) {
            Err(message) => refuse_with(m, message),
            Ok(i) => match bytes {
                Err(e) => (m, Err(e)),
                Ok(data) => {
                    let o = m.high_risk_objects[i];
                    if data.len() == 0 {
                        refuse_with(
                            m,
                            "unsafe_update: replacement OLE payload must not be empty"@,
                        )
                    } else if package::file_extension(path) != o.ole_extension {
                        refuse_with(
                            m,
                            "unsafe_update: replacement OLE extension must match existing target extension "@
                                + o.ole_extension,
                        )
                    } else {
                        (
                            engine::logged(
                                EngineModel {
                                    high_risk_objects: m.high_risk_objects.update(
                                        i,
                                        HighRiskObject { target_size: byte_count(data), ..o },
                                    ),
                                    ole_replacements: entries::put(
                                        m.ole_replacements,
                                        o.target_path,
                                        data,
                                    ),
                                    ..m
                                },
                                objects::named_event(
                                    "ole_object_replace"@,
                                    sheet,
                                    0,
                                    0,
                                    o.target_path,
                                    path,
                                    id,
                                    reason + ":bytes="@ + text::decimal(
                                        byte_count(data) as nat,
                                    ),
                                ),
                            ),
                            Ok(()),
                        )
                    }
                },
            },
        },
    }
}

impl SheetShadowEngine {
    fn apply_update_sparkline_source(
        &mut self,
        sheet: &str,
        object_id: &str,
        source_formula: &str,
        reason: &str,
    ) -> (r: Result<(), ShadowError>)
        ensures
            (final(self).deep_view(), coord::outcome(r)) == sparkline_updated(
                old(self).deep_view(),
                sheet@,
                object_id@,
                source_formula@,
                reason@,
            ),
    {
        match self.target_refused(sheet, 1, 1) {
            Some(message) => return Err(ShadowError::Value(message)),
            None => {},
        }
        let t = text::trimmed(source_formula);
        if t.as_str().is_empty() {
            return Err(
                coord::refuse("unsafe_update: sparkline source_formula must not be empty"),
            );
        }
        let i = match find_risk(&self.high_risk_objects, sheet, object_id) {
            Some(i) => i,
            None => return Err(
                coord::refuse("high_risk_object_not_found: object_id not found on sheet"),
            ),
        };
        assert(self.high_risk_objects.deep_view()[i as int]
            == self.high_risk_objects@[i as int].deep_view());
        let mut o = self.high_risk_objects[i].clone();
        if !text::same(&o.object_type, "sparkline") {
            return Err(
                coord::refuse(
                    "unsafe_update: high-risk edit only supports sparkline update_source",
                ),
            );
        }
        if o.source_formula.as_str().is_empty() {
            return Err(
                coord::refuse("unsafe_update: sparkline source formula could not be read safely"),
            );
        }
        let before = o.source_formula.clone();
        let mut why = reason.to_owned();
        why.append(":sqref=");
        why.append(&o.ref_text);
        o.source_formula = t.clone();
        self.put_risk(i, o);
        entries::map_put(&mut self.sparkline_source_updates, object_id.to_owned(), t.clone());
        entries::set_add(&mut self.sparkline_dirty_sheets, sheet.to_owned());
        entries::set_add(&mut self.sparkline_dirty_objects, object_id.to_owned());
        let told = objects::audit_event(
            "sparkline_source_update",
            sheet,
            0,
            0,
            &before,
            &t,
            object_id,
            &why,
        );
        self.log(told);
        Ok(())
    }

    pub fn pivot_object_for_edit(&self, sheet: &str, object_id: &str) -> (r: Result<usize, String>)
        ensures
            place_view(r) == editable_pivot(self.deep_view(), sheet@, object_id@),
            r matches Ok(i) ==> i < self.high_risk_objects.len(),
            risk_place(self.deep_view().high_risk_objects, sheet@, object_id@, 0) matches Some(i)
                ==> inventory::writable(self.deep_view().high_risk_objects[i])
                && self.deep_view().high_risk_objects[i].object_type == "pivot_table"@ ==> place_view(r)
                == Ok::<int, Seq<char>>(i),
    {
        proof {
            if let Some(i) = risk_place(
                self.deep_view().high_risk_objects,
                sheet@,
                object_id@,
                0,
            ) {
                if inventory::writable(self.deep_view().high_risk_objects[i]) {
                    inventory::law_writable_objects_can_be_changed(
                        self.deep_view(),
                        sheet@,
                        object_id@,
                        i,
                    );
                }
            }
        }
        let i = match find_risk(&self.high_risk_objects, sheet, object_id) {
            Some(i) => i,
            None => return Err(
                "high_risk_object_not_found: object_id not found on sheet".to_owned(),
            ),
        };
        assert(self.high_risk_objects.deep_view()[i as int]
            == self.high_risk_objects@[i as int].deep_view());
        let o = &self.high_risk_objects[i];
        if !text::same(&o.object_type, "pivot_table") {
            return Err(
                "unsafe_update: pivot metadata update requires a pivot_table object".to_owned(),
            );
        }
        if !is_part_writable(o) {
            return Err("unsafe_update: pivot target part is not safely writable".to_owned());
        }
        if o.cache_path.as_str().is_empty() || !o.cache_exists {
            return Err(
                "unsafe_update: pivot cache relationship must be valid before metadata write".to_owned(),
            );
        }
        if !o.invalid_reason.as_str().is_empty() {
            let mut m = "unsafe_update: pivot object is invalid: ".to_owned();
            m.append(&o.invalid_reason);
            return Err(m);
        }
        Ok(i)
    }

    pub fn ole_object_for_edit(&self, sheet: &str, object_id: &str) -> (r: Result<usize, String>)
        ensures
            place_view(r) == editable_ole(self.deep_view(), sheet@, object_id@),
            r matches Ok(i) ==> i < self.high_risk_objects.len(),
            risk_place(self.deep_view().high_risk_objects, sheet@, object_id@, 0) matches Some(i)
                ==> inventory::writable(self.deep_view().high_risk_objects[i])
                && self.deep_view().high_risk_objects[i].object_type == "ole_object"@ ==> place_view(r)
                == Ok::<int, Seq<char>>(i),
    {
        proof {
            if let Some(i) = risk_place(
                self.deep_view().high_risk_objects,
                sheet@,
                object_id@,
                0,
            ) {
                if inventory::writable(self.deep_view().high_risk_objects[i]) {
                    inventory::law_writable_objects_can_be_changed(
                        self.deep_view(),
                        sheet@,
                        object_id@,
                        i,
                    );
                }
            }
        }
        let i = match find_risk(&self.high_risk_objects, sheet, object_id) {
            Some(i) => i,
            None => return Err(
                "high_risk_object_not_found: object_id not found on sheet".to_owned(),
            ),
        };
        assert(self.high_risk_objects.deep_view()[i as int]
            == self.high_risk_objects@[i as int].deep_view());
        let o = &self.high_risk_objects[i];
        if !text::same(&o.object_type, "ole_object") {
            return Err("unsafe_update: OLE replacement requires an ole_object".to_owned());
        }
        if !is_part_writable(o) {
            return Err("unsafe_update: OLE target part is not safely replaceable".to_owned());
        }
        if o.ole_extension.as_str().is_empty() {
            return Err(
                "unsafe_update: OLE target extension must be known before replacement".to_owned(),
            );
        }
        if !o.invalid_reason.as_str().is_empty() {
            let mut m = "unsafe_update: OLE object is invalid: ".to_owned();
            m.append(&o.invalid_reason);
            return Err(m);
        }
        Ok(i)
    }

    fn apply_update_pivot_metadata(
        &mut self,
        sheet: &str,
        object_id: &str,
        name: &Option<String>,
        data_caption: &Option<String>,
        reason: &str,
    ) -> (r: Result<(), ShadowError>)
        ensures
            (final(self).deep_view(), coord::outcome(r)) == pivot_updated(
                old(self).deep_view(),
                sheet@,
                object_id@,
                name.deep_view(),
                data_caption.deep_view(),
                reason@,
            ),
    {
        match self.target_refused(sheet, 1, 1) {
            Some(message) => return Err(ShadowError::Value(message)),
            None => {},
        }
        let new_name = match normalize_optional_pivot_text(name, "pivot name") {
            Ok(v) => v,
            Err(message) => return Err(ShadowError::Value(message)),
        };
        let new_caption = match normalize_optional_pivot_text(data_caption, "pivot data caption") {
            Ok(v) => v,
            Err(message) => return Err(ShadowError::Value(message)),
        };
        if new_name.is_none() && new_caption.is_none() {
            return Err(
                coord::refuse("unsafe_update: pivot metadata update requires name or data_caption"),
            );
        }
        let i = match self.pivot_object_for_edit(sheet, object_id) {
            Ok(i) => i,
            Err(message) => return Err(ShadowError::Value(message)),
        };
        assert(self.high_risk_objects.deep_view()[i as int]
            == self.high_risk_objects@[i as int].deep_view());
        let mut o = self.high_risk_objects[i].clone();
        let before = pivot_account_of(&o.name, &o.pivot_data_caption);
        o.name = package::text_or(new_name, &o.name);
        o.pivot_data_caption = package::text_or(new_caption, &o.pivot_data_caption);
        let after = pivot_account_of(&o.name, &o.pivot_data_caption);
        let path = o.target_path.clone();
        let mut why = reason.to_owned();
        why.append(":target=");
        why.append(&path);
        self.put_risk(i, o);
        entries::set_add(&mut self.pivot_dirty_paths, path);
        let told = objects::audit_event(
            "pivot_metadata_update",
            sheet,
            0,
            0,
            &before,
            &after,
            object_id,
            &why,
        );
        self.log(told);
        Ok(())
    }

    fn apply_replace_ole_object(
        &mut self,
        sheet: &str,
        object_id: &str,
        ole_path: &str,
        bytes: &Result<Vec<u8>, ShadowError>,
        reason: &str,
    ) -> (r: Result<(), ShadowError>)
        ensures
            (final(self).deep_view(), coord::outcome(r)) == ole_replaced(
                old(self).deep_view(),
                sheet@,
                object_id@,
                ole_path@,
                bytes_view(*bytes),
                reason@,
            ),
    {
        match self.target_refused(sheet, 1, 1) {
            Some(message) => return Err(ShadowError::Value(message)),
            None => {},
        }
        let i = match self.ole_object_for_edit(sheet, object_id) {
            Ok(i) => i,
            Err(message) => return Err(ShadowError::Value(message)),
        };
        let data = match bytes {
            Ok(data) => data,
            Err(e) => return Err(e.clone()),
        };
        assert(self.high_risk_objects.deep_view()[i as int]
            == self.high_risk_objects@[i as int].deep_view());
        let mut o = self.high_risk_objects[i].clone();
        assert(data.deep_view().len() == data.len());
        if data.len() == 0 {
            return Err(
                coord::refuse("unsafe_update: replacement OLE payload must not be empty"),
            );
        }
        if !text::same(&package::file_extension_from_path(ole_path), &o.ole_extension) {
            let mut m =
                "unsafe_update: replacement OLE extension must match existing target extension ".to_owned();
            m.append(&o.ole_extension);
            return Err(ShadowError::Value(m));
        }
        let size = data.len() as u64;
        assert(size == byte_count(data.deep_view()));
        let path = o.target_path.clone();
        o.target_size = size;
        self.put_risk(i, o);
        entries::map_put(&mut self.ole_replacements, path.clone(), data.copied());
        let mut why = reason.to_owned();
        why.append(":bytes=");
        why.append(&text::number_text(size));
        let told = objects::audit_event(
            "ole_object_replace",
            sheet,
            0,
            0,
            &path,
            ole_path,
            object_id,
            &why,
        );
        self.log(told);
        Ok(())
    }
}

// ----- Comments -----

/// The place of the first comment from `i` on that is on the given cell.
pub open spec fn comment_place(s: Seq<CellComment<Seq<char>>>, k: Key<Seq<char>>, i: int) -> Option<int>
    decreases s.len() - i,
{
    if i < 0 || i >= s.len() {
        None
    } else if s[i].key == k {
        Some(i)
    } else {
        comment_place(s, k, i + 1)
    }
}

fn find_comment(v: &Vec<CellComment>, k: &Key) -> (r: Option<usize>)
    ensures
        text::pos(r) == comment_place(v.deep_view(), k.deep_view(), 0),
        r matches Some(i) ==> i < v.len(),
{
    let ghost all = v.deep_view();
    let mut i: usize = 0;
    while i < v.len()
        invariant
            i <= v.len(),
            all == v.deep_view(),
            comment_place(all, k.deep_view(), 0) == comment_place(all, k.deep_view(), i as int),
        decreases v.len() - i,
    {
        assert(all[i as int] == v@[i as int].deep_view());
        if entries::Alike::alike(&v[i].key, k) {
            return Some(i);
        }
        i = i + 1;
    }
    None
}

/// Comments without those on a cell.
pub open spec fn comments_without(s: Seq<CellComment<Seq<char>>>, k: Key<Seq<char>>) -> Seq<
    CellComment<Seq<char>>,
>
    decreases s.len(),
{
    if s.len() == 0 {
        s
    } else if s.last().key == k {
        comments_without(s.drop_last(), k)
    } else {
        comments_without(s.drop_last(), k).push(s.last())
    }
}

fn remove_comments(v: &Vec<CellComment>, k: &Key) -> (r: Vec<CellComment>)
    ensures
        r.deep_view() == comments_without(v.deep_view(), k.deep_view()),
{
    let ghost all = v.deep_view();
    let mut out: Vec<CellComment> = Vec::new();
    let mut i: usize = 0;
    assert(out.deep_view() == Seq::<CellComment<Seq<char>>>::empty());
    assert(all.take(0) == Seq::<CellComment<Seq<char>>>::empty());
    while i < v.len()
        invariant
            i <= v.len(),
            all == v.deep_view(),
            out.deep_view() == comments_without(all.take(i as int), k.deep_view()),
        decreases v.len() - i,
    {
        assert(all.take(i + 1).drop_last() == all.take(i as int));
        assert(all.take(i + 1).last() == v@[i as int].deep_view());
        if !entries::Alike::alike(&v[i].key, k) {
            let ghost done = out.deep_view();
            let kept = v[i].clone();
            out.push(kept);
            assert(out.deep_view() == done.push(kept.deep_view()));
        }
        i = i + 1;
    }
    assert(all.take(all.len() as int) == all);
    out
}

pub open spec fn comment_applied(
    m: EngineModel,
    sheet: Seq<char>,
    row: usize,
    col: usize,
    value: Seq<char>,
    remove: bool,
    reason: Seq<char>,
) -> (EngineModel, Fallible<()>) {
    let k = coord::key(sheet, row, col);
    let at = comment_place(m.comments, k, 0);
    match engine::target_refusal(m, sheet, row, col) {
        Some(message) => refuse_with(m, message),
        None => if !remove && text::trim(value).len() == 0 {
            refuse_with(m, "unsafe_update: comment text must not be empty"@)
        } else {
            (
                engine::logged(
                    EngineModel {
                        comments: if remove {
                            comments_without(m.comments, k)
                        } else {
                            match at {
                                Some(i) => m.comments.update(
                                    i,
                                    CellComment { text: value, ..m.comments[i] },
                                ),
                                None => m.comments.push(CellComment { key: k, text: value }),
                            }
                        },
                        comment_dirty_sheets: entries::with(m.comment_dirty_sheets, sheet),
                        ..m
                    },
                    objects::event(
                        "comment_update"@,
                        sheet,
                        row,
                        col,
                        match at {
                            Some(i) => m.comments[i].text,
                            None => Seq::empty(),
                        },
                        if remove {
                            ""@
                        } else {
                            value
                        },
                        reason,
                    ),
                ),
                Ok(()),
            )
        },
    }
}

impl SheetShadowEngine {
    fn apply_comment_with_reason(
        &mut self,
        sheet: &str,
        row: usize,
        col: usize,
        value: &str,
        remove: bool,
        reason: &str,
    ) -> (r: Result<(), ShadowError>)
        ensures
            (final(self).deep_view(), coord::outcome(r)) == comment_applied(
                old(self).deep_view(),
                sheet@,
                row,
                col,
                value@,
                remove,
                reason@,
            ),
    {
        match self.target_refused(sheet, row, col) {
            Some(message) => return Err(ShadowError::Value(message)),
            None => {},
        }
        if !remove && text::trimmed(value).as_str().is_empty() {
            return Err(coord::refuse("unsafe_update: comment text must not be empty"));
        }
        let k = coord::key_of(sheet, row, col);
        let at = find_comment(&self.comments, &k);
        let ghost before = self.comments.deep_view();
        let old_value = match at {
            Some(i) => {
                assert(before[i as int] == self.comments@[i as int].deep_view());
                self.comments[i].text.clone()
            },
            None => String::new(),
        };
        if remove {
            self.comments = remove_comments(&self.comments, &k);
        } else {
            match at {
                Some(i) => {
                    let mut c = self.comments[i].clone();
                    c.text = value.to_owned();
                    self.comments.set(i, c);
                    assert(self.comments.deep_view() == before.update(i as int, c.deep_view()));
                },
                None => {
                    let c = CellComment { key: k, text: value.to_owned() };
                    self.comments.push(c);
                    assert(self.comments.deep_view() == before.push(c.deep_view()));
                },
            }
        }
        entries::set_add(&mut self.comment_dirty_sheets, sheet.to_owned());
        let told = objects::object_audit_event(
            "comment_update",
            sheet,
            row,
            col,
            &old_value,
            if remove {
                ""
            } else {
                value
            },
            reason,
        );
        self.log(told);
        Ok(())
    }
}

// ----- Rules -----

/// The range between two cells, whichever comes first, or why it is refused.
pub open spec fn rule_range(
    m: EngineModel,
    sheet: Seq<char>,
    start_row: usize,
    start_col: usize,
    end_row: usize,
    end_col: usize,
) -> Result<ObjectRange<Seq<char>>, Seq<char>> {
    match (
        engine::target_refusal(m, sheet, start_row, start_col),
        engine::target_refusal(m, sheet, end_row, end_col),
    ) {
        (Some(message), _) => Err(message),
        (None, Some(message)) => Err(message),
        (None, None) => Ok(
            ObjectRange {
                sheet,
                start_row: deps::low(start_row, end_row),
                start_col: deps::low(start_col, end_col),
                end_row: deps::high(start_row, end_row),
                end_col: deps::high(start_col, end_col),
            },
        ),
    }
}

pub open spec fn range_view(r: Result<ObjectRange, String>) -> Result<
    ObjectRange<Seq<char>>,
    Seq<char>,
> {
    match r {
        Ok(v) => Ok(v.deep_view()),
        Err(m) => Err(m@),
    }
}

impl SheetShadowEngine {
    fn validated_object_range(
        &self,
        sheet: &str,
        start_row: usize,
        start_col: usize,
        end_row: usize,
        end_col: usize,
    ) -> (r: Result<ObjectRange, String>)
        ensures
            range_view(r) == rule_range(
                self.deep_view(),
                sheet@,
                start_row,
                start_col,
                end_row,
                end_col,
            ),
    {
        match self.target_refused(sheet, start_row, start_col) {
            Some(message) => return Err(message),
            None => {},
        }
        match self.target_refused(sheet, end_row, end_col) {
            Some(message) => return Err(message),
            None => {},
        }
        Ok(
            ObjectRange {
                sheet: sheet.to_owned(),
                start_row: deps::lower_of(start_row, end_row),
                start_col: deps::lower_of(start_col, end_col),
                end_row: deps::higher_of(start_row, end_row),
                end_col: deps::higher_of(start_col, end_col),
            },
        )
    }
}

pub open spec fn validation_types() -> Seq<Seq<char>> {
    seq!["whole"@, "decimal"@, "list"@, "date"@, "time"@, "textLength"@, "custom"@]
}

pub open spec fn comparison_words() -> Seq<Seq<char>> {
    seq![
        "between"@,
        "notBetween"@,
        "equal"@,
        "notEqual"@,
        "greaterThan"@,
        "lessThan"@,
        "greaterThanOrEqual"@,
        "lessThanOrEqual"@,
    ]
}

pub open spec fn format_types() -> Seq<Seq<char>> {
    seq!["cellIs"@, "expression"@, "containsText"@, "top10"@, "aboveAverage"@]
}

fn validation_type_list() -> (r: Vec<String>)
    ensures
        r.deep_view() == validation_types(),
{
    let r: Vec<String> = vec![
        "whole".to_owned(),
        "decimal".to_owned(),
        "list".to_owned(),
        "date".to_owned(),
        "time".to_owned(),
        "textLength".to_owned(),
        "custom".to_owned(),
    ];
    assert(r.deep_view() == validation_types());
    r
}

fn comparison_list() -> (r: Vec<String>)
    ensures
        r.deep_view() == comparison_words(),
{
    let r: Vec<String> = vec![
        "between".to_owned(),
        "notBetween".to_owned(),
        "equal".to_owned(),
        "notEqual".to_owned(),
        "greaterThan".to_owned(),
        "lessThan".to_owned(),
        "greaterThanOrEqual".to_owned(),
        "lessThanOrEqual".to_owned(),
    ];
    assert(r.deep_view() == comparison_words());
    r
}

fn format_type_list() -> (r: Vec<String>)
    ensures
        r.deep_view() == format_types(),
{
    let r: Vec<String> = vec![
        "cellIs".to_owned(),
        "expression".to_owned(),
        "containsText".to_owned(),
        "top10".to_owned(),
        "aboveAverage".to_owned(),
    ];
    assert(r.deep_view() == format_types());
    r
}

/// The validation that a request asks for on a range.
pub open spec fn asked_validation(range: ObjectRange<Seq<char>>, fields: FieldsModel) -> Fallible<
    DataValidationRule<Seq<char>>,
> {
    match styles::choice_field(fields, "type"@, validation_types()) {
        Err(e) => Err(e),
        Ok(kind) => match styles::choice_field(fields, "operator"@, comparison_words()) {
            Err(e) => Err(e),
            Ok(operator) => match styles::bool_field(fields, "allow_blank"@) {
                Err(e) => Err(e),
                Ok(blank) => {
                    let validation_type = package::or_text(kind, "list"@);
                    let formula1 = package::or_text(
                        styles::filled_field(fields, "formula1"@),
                        Seq::empty(),
                    );
                    if formula1.len() == 0 && validation_type != "custom"@ {
                        Err(
                            coord::value_error("unsafe_update: data validation requires formula1"@),
                        )
                    } else {
                        Ok(
                            DataValidationRule {
                                range,
                                validation_type,
                                operator: package::or_text(operator, Seq::empty()),
                                formula1,
                                formula2: package::or_text(
                                    styles::filled_field(fields, "formula2"@),
                                    Seq::empty(),
                                ),
                                allow_blank: match blank {
                                    Some(b) => b,
                                    None => true,
                                },
                            },
                        )
                    }
                },
            },
        },
    }
}

fn text_or_empty(a: Option<String>) -> (r: String)
    ensures
        r@ == package::or_text(a.deep_view(), Seq::empty()),
{
    match a {
        Some(t) => t,
        None => String::new(),
    }
}

fn validation_asked_for(range: ObjectRange, rule: &Fields) -> (r: Result<
    DataValidationRule,
    ShadowError,
>)
    ensures
        coord::outcome(r) == asked_validation(range.deep_view(), rule.deep_view()),
{
    let kind = match styles::optional_enum(rule, "type", &validation_type_list()) {
        Ok(v) => v,
        Err(e) => return Err(e),
    };
    let operator = match styles::optional_enum(rule, "operator", &comparison_list()) {
        Ok(v) => v,
        Err(e) => return Err(e),
    };
    let blank = match styles::optional_bool(rule, "allow_blank") {
        Ok(v) => v,
        Err(e) => return Err(e),
    };
    let validation_type = package::text_or(kind, "list");
    let formula1 = text_or_empty(styles::optional_nonempty(rule, "formula1"));
    if formula1.as_str().is_empty() && !text::same(&validation_type, "custom") {
        return Err(coord::refuse("unsafe_update: data validation requires formula1"));
    }
    Ok(
        DataValidationRule {
            range,
            validation_type,
            operator: text_or_empty(operator),
            formula1,
            formula2: text_or_empty(styles::optional_nonempty(rule, "formula2")),
            allow_blank: match blank {
                Some(b) => b,
                None => true,
            },
        },
    )
}

/// Validations without those on a range of a sheet.
pub open spec fn validations_off(
    s: Seq<DataValidationRule<Seq<char>>>,
    sheet: Seq<char>,
    range: Seq<char>,
) -> Seq<DataValidationRule<Seq<char>>>
    decreases s.len(),
{
    if s.len() == 0 {
        s
    } else if s.last().range.sheet == sheet && s.last().range.range_text() == range {
        validations_off(s.drop_last(), sheet, range)
    } else {
        validations_off(s.drop_last(), sheet, range).push(s.last())
    }
}

fn drop_validations(v: &Vec<DataValidationRule>, sheet: &str, range: &str) -> (r: Vec<
    DataValidationRule,
>)
    ensures
        r.deep_view() == validations_off(v.deep_view(), sheet@, range@),
{
    let ghost all = v.deep_view();
    let mut out: Vec<DataValidationRule> = Vec::new();
    let mut i: usize = 0;
    assert(out.deep_view() == Seq::<DataValidationRule<Seq<char>>>::empty());
    assert(all.take(0) == Seq::<DataValidationRule<Seq<char>>>::empty());
    while i < v.len()
        invariant
            i <= v.len(),
            all == v.deep_view(),
            out.deep_view() == validations_off(all.take(i as int), sheet@, range@),
        decreases v.len() - i,
    {
        assert(all.take(i + 1).drop_last() == all.take(i as int));
        assert(all.take(i + 1).last() == v@[i as int].deep_view());
        if !(text::same(&v[i].range.sheet, sheet) && text::same(&v[i].range.ref_text(), range)) {
            let ghost done = out.deep_view();
            let kept = v[i].clone();
            out.push(kept);
            assert(out.deep_view() == done.push(kept.deep_view()));
        }
        i = i + 1;
    }
    assert(all.take(all.len() as int) == all);
    out
}

pub open spec fn validation_applied(
    m: EngineModel,
    sheet: Seq<char>,
    start_row: usize,
    start_col: usize,
    end_row: usize,
    end_col: usize,
    fields: FieldsModel,
    reason: Seq<char>,
) -> (EngineModel, Fallible<()>) {
    match rule_range(m, sheet, start_row, start_col, end_row, end_col) {
        Err(message) => refuse_with(m, message),
        Ok(range) => match asked_validation(range, fields) {
            Err(e) => (m, Err(e)),
            Ok(rule) => (
                engine::logged(
                    EngineModel {
                        data_validations: validations_off(
                            m.data_validations,
                            sheet,
                            range.range_text(),
                        ).push(rule),
                        object_dirty_sheets: entries::with(m.object_dirty_sheets, sheet),
                        ..m
                    },
                    objects::event(
                        "data_validation_update"@,
                        sheet,
                        start_row,
                        start_col,
                        ""@,
                        range.range_text(),
                        reason,
                    ),
                ),
                Ok(()),
            ),
        },
    }
}

/// Filters without those of a sheet.
pub open spec fn filters_off(s: Seq<AutoFilterRule<Seq<char>>>, sheet: Seq<char>) -> Seq<AutoFilterRule<Seq<char>>>
    decreases s.len(),
{
    if s.len() == 0 {
        s
    } else if s.last().range.sheet == sheet {
        filters_off(s.drop_last(), sheet)
    } else {
        filters_off(s.drop_last(), sheet).push(s.last())
    }
}

fn drop_filters(v: &Vec<AutoFilterRule>, sheet: &str) -> (r: Vec<AutoFilterRule>)
    ensures
        r.deep_view() == filters_off(v.deep_view(), sheet@),
{
    let ghost all = v.deep_view();
    let mut out: Vec<AutoFilterRule> = Vec::new();
    let mut i: usize = 0;
    assert(out.deep_view() == Seq::<AutoFilterRule<Seq<char>>>::empty());
    assert(all.take(0) == Seq::<AutoFilterRule<Seq<char>>>::empty());
    while i < v.len()
        invariant
            i <= v.len(),
            all == v.deep_view(),
            out.deep_view() == filters_off(all.take(i as int), sheet@),
        decreases v.len() - i,
    {
        assert(all.take(i + 1).drop_last() == all.take(i as int));
        assert(all.take(i + 1).last() == v@[i as int].deep_view());
        if !text::same(&v[i].range.sheet, sheet) {
            let ghost done = out.deep_view();
            let kept = v[i].clone();
            out.push(kept);
            assert(out.deep_view() == done.push(kept.deep_view()));
        }
        i = i + 1;
    }
    assert(all.take(all.len() as int) == all);
    out
}

/// Validations without those of a sheet.
pub open spec fn sheet_validations_off(s: Seq<DataValidationRule<Seq<char>>>, sheet: Seq<char>) -> Seq<DataValidationRule<Seq<char>>>
    decreases s.len(),
{
    if s.len() == 0 {
        s
    } else if s.last().range.sheet == sheet {
        sheet_validations_off(s.drop_last(), sheet)
    } else {
        sheet_validations_off(s.drop_last(), sheet).push(s.last())
    }
}

fn drop_sheet_validations(v: &Vec<DataValidationRule>, sheet: &str) -> (r: Vec<DataValidationRule>)
    ensures
        r.deep_view() == sheet_validations_off(v.deep_view(), sheet@),
{
    let ghost all = v.deep_view();
    let mut out: Vec<DataValidationRule> = Vec::new();
    let mut i: usize = 0;
    assert(out.deep_view() == Seq::<DataValidationRule<Seq<char>>>::empty());
    assert(all.take(0) == Seq::<DataValidationRule<Seq<char>>>::empty());
    while i < v.len()
        invariant
            i <= v.len(),
            all == v.deep_view(),
            out.deep_view() == sheet_validations_off(all.take(i as int), sheet@),
        decreases v.len() - i,
    {
        assert(all.take(i + 1).drop_last() == all.take(i as int));
        assert(all.take(i + 1).last() == v@[i as int].deep_view());
        if !text::same(&v[i].range.sheet, sheet) {
            let ghost done = out.deep_view();
            let kept = v[i].clone();
            out.push(kept);
            assert(out.deep_view() == done.push(kept.deep_view()));
        }
        i = i + 1;
    }
    assert(all.take(all.len() as int) == all);
    out
}

/// Conditional formats without those of a sheet.
pub open spec fn sheet_formats_off(s: Seq<ConditionalFormatRule<Seq<char>>>, sheet: Seq<char>) -> Seq<ConditionalFormatRule<Seq<char>>>
    decreases s.len(),
{
    if s.len() == 0 {
        s
    } else if s.last().range.sheet == sheet {
        sheet_formats_off(s.drop_last(), sheet)
    } else {
        sheet_formats_off(s.drop_last(), sheet).push(s.last())
    }
}

fn drop_sheet_formats(v: &Vec<ConditionalFormatRule>, sheet: &str) -> (r: Vec<ConditionalFormatRule>)
    ensures
        r.deep_view() == sheet_formats_off(v.deep_view(), sheet@),
{
    let ghost all = v.deep_view();
    let mut out: Vec<ConditionalFormatRule> = Vec::new();
    let mut i: usize = 0;
    assert(out.deep_view() == Seq::<ConditionalFormatRule<Seq<char>>>::empty());
    assert(all.take(0) == Seq::<ConditionalFormatRule<Seq<char>>>::empty());
    while i < v.len()
        invariant
            i <= v.len(),
            all == v.deep_view(),
            out.deep_view() == sheet_formats_off(all.take(i as int), sheet@),
        decreases v.len() - i,
    {
        assert(all.take(i + 1).drop_last() == all.take(i as int));
        assert(all.take(i + 1).last() == v@[i as int].deep_view());
        if !text::same(&v[i].range.sheet, sheet) {
            let ghost done = out.deep_view();
            let kept = v[i].clone();
            out.push(kept);
            assert(out.deep_view() == done.push(kept.deep_view()));
        }
        i = i + 1;
    }
    assert(all.take(all.len() as int) == all);
    out
}

pub open spec fn filter_applied(
    m: EngineModel,
    sheet: Seq<char>,
    start_row: usize,
    start_col: usize,
    end_row: usize,
    end_col: usize,
    reason: Seq<char>,
) -> (EngineModel, Fallible<()>) {
    match rule_range(m, sheet, start_row, start_col, end_row, end_col) {
        Err(message) => refuse_with(m, message),
        Ok(range) => (
            engine::logged(
                EngineModel {
                    auto_filters: filters_off(m.auto_filters, sheet).push(
                        AutoFilterRule { range },
                    ),
                    object_dirty_sheets: entries::with(m.object_dirty_sheets, sheet),
                    ..m
                },
                objects::event(
                    "autofilter_update"@,
                    sheet,
                    start_row,
                    start_col,
                    ""@,
                    range.range_text(),
                    reason,
                ),
            ),
            Ok(()),
        ),
    }
}

/// The highest priority of the conditional formats of a sheet.
pub open spec fn highest_priority(s: Seq<ConditionalFormatRule<Seq<char>>>, sheet: Seq<char>) -> usize
    decreases s.len(),
{
    if s.len() == 0 {
        0
    } else {
        let done = highest_priority(s.drop_last(), sheet);
        if s.last().range.sheet == sheet && s.last().priority > done {
            s.last().priority
        } else {
            done
        }
    }
}

fn max_priority(v: &Vec<ConditionalFormatRule>, sheet: &str) -> (r: usize)
    ensures
        r == highest_priority(v.deep_view(), sheet@),
{
    let ghost all = v.deep_view();
    let mut out: usize = 0;
    let mut i: usize = 0;
    assert(all.take(0).len() == 0);
    while i < v.len()
        invariant
            i <= v.len(),
            all == v.deep_view(),
            out == highest_priority(all.take(i as int), sheet@),
        decreases v.len() - i,
    {
        assert(all.take(i + 1).drop_last() == all.take(i as int));
        assert(all.take(i + 1).last() == v@[i as int].deep_view());
        if text::same(&v[i].range.sheet, sheet) && v[i].priority > out {
            out = v[i].priority;
        }
        i = i + 1;
    }
    assert(all.take(all.len() as int) == all);
    out
}

/// The conditional format that a request asks for on a range.
pub open spec fn asked_format(
    m: EngineModel,
    range: ObjectRange<Seq<char>>,
    fields: FieldsModel,
) -> Fallible<ConditionalFormatRule<Seq<char>>> {
    match styles::choice_field(fields, "type"@, format_types()) {
        Err(e) => Err(e),
        Ok(kind) => match styles::choice_field(
            fields,
            "operator"@,
            comparison_words().push("containsText"@),
        ) {
            Err(e) => Err(e),
            Ok(operator) => {
                let formula = package::or_text(
                    styles::filled_field(fields, "formula"@),
                    Seq::empty(),
                );
                if formula.len() == 0 {
                    Err(coord::value_error("unsafe_update: conditional format requires formula"@))
                } else {
                    Ok(
                        ConditionalFormatRule {
                            range,
                            rule_type: package::or_text(kind, "cellIs"@),
                            operator: package::or_text(operator, Seq::empty()),
                            formula,
                            priority: objects::saturated(
                                highest_priority(m.conditional_formats, range.sheet) + 1,
                            ),
                        },
                    )
                }
            },
        },
    }
}

pub open spec fn conditional_format_applied(
    m: EngineModel,
    sheet: Seq<char>,
    start_row: usize,
    start_col: usize,
    end_row: usize,
    end_col: usize,
    fields: FieldsModel,
    reason: Seq<char>,
) -> (EngineModel, Fallible<()>) {
    match rule_range(m, sheet, start_row, start_col, end_row, end_col) {
        Err(message) => refuse_with(m, message),
        Ok(range) => match asked_format(m, range, fields) {
            Err(e) => (m, Err(e)),
            Ok(rule) => (
                engine::logged(
                    EngineModel {
                        conditional_formats: m.conditional_formats.push(rule),
                        object_dirty_sheets: entries::with(m.object_dirty_sheets, sheet),
                        ..m
                    },
                    objects::event(
                        "conditional_format_update"@,
                        sheet,
                        start_row,
                        start_col,
                        ""@,
                        range.range_text(),
                        reason,
                    ),
                ),
                Ok(()),
            ),
        },
    }
}

impl SheetShadowEngine {
    fn apply_data_validation_with_reason(
        &mut self,
        sheet: &str,
        start_row: usize,
        start_col: usize,
        end_row: usize,
        end_col: usize,
        rule: &Fields,
        reason: &str,
    ) -> (r: Result<(), ShadowError>)
        ensures
            (final(self).deep_view(), coord::outcome(r)) == validation_applied(
                old(self).deep_view(),
                sheet@,
                start_row,
                start_col,
                end_row,
                end_col,
                rule.deep_view(),
                reason@,
            ),
    {
        let range = match self.validated_object_range(
            sheet,
            start_row,
            start_col,
            end_row,
            end_col,
        ) {
            Ok(range) => range,
            Err(message) => return Err(ShadowError::Value(message)),
        };
        let place = range.ref_text();
        let asked = match validation_asked_for(range, rule) {
            Ok(asked) => asked,
            Err(e) => return Err(e),
        };
        let mut rules = drop_validations(&self.data_validations, sheet, &place);
        let ghost before = rules.deep_view();
        rules.push(asked);
        assert(rules.deep_view() == before.push(asked.deep_view()));
        self.data_validations = rules;
        entries::set_add(&mut self.object_dirty_sheets, sheet.to_owned());
        let told = objects::object_audit_event(
            "data_validation_update",
            sheet,
            start_row,
            start_col,
            "",
            &place,
            reason,
        );
        self.log(told);
        Ok(())
    }

    fn apply_autofilter_with_reason(
        &mut self,
        sheet: &str,
        start_row: usize,
        start_col: usize,
        end_row: usize,
        end_col: usize,
        reason: &str,
    ) -> (r: Result<(), ShadowError>)
        ensures
            (final(self).deep_view(), coord::outcome(r)) == filter_applied(
                old(self).deep_view(),
                sheet@,
                start_row,
                start_col,
                end_row,
                end_col,
                reason@,
            ),
    {
        let range = match self.validated_object_range(
            sheet,
            start_row,
            start_col,
            end_row,
            end_col,
        ) {
            Ok(range) => range,
            Err(message) => return Err(ShadowError::Value(message)),
        };
        let place = range.ref_text();
        let mut rules = drop_filters(&self.auto_filters, sheet);
        let ghost before = rules.deep_view();
        let asked = AutoFilterRule { range };
        rules.push(asked);
        assert(rules.deep_view() == before.push(asked.deep_view()));
        self.auto_filters = rules;
        entries::set_add(&mut self.object_dirty_sheets, sheet.to_owned());
        let told = objects::object_audit_event(
            "autofilter_update",
            sheet,
            start_row,
            start_col,
            "",
            &place,
            reason,
        );
        self.log(told);
        Ok(())
    }

    fn format_asked_for(&self, range: ObjectRange, rule: &Fields) -> (r: Result<
        ConditionalFormatRule,
        ShadowError,
    >)
        ensures
            coord::outcome(r) == asked_format(
                self.deep_view(),
                range.deep_view(),
                rule.deep_view(),
            ),
    {
        let kind = match styles::optional_enum(rule, "type", &format_type_list()) {
            Ok(v) => v,
            Err(e) => return Err(e),
        };
        let mut words = comparison_list();
        words.push("containsText".to_owned());
        assert(words.deep_view() == comparison_words().push("containsText"@));
        let operator = match styles::optional_enum(rule, "operator", &words) {
            Ok(v) => v,
            Err(e) => return Err(e),
        };
        let formula = text_or_empty(styles::optional_nonempty(rule, "formula"));
        if formula.as_str().is_empty() {
            return Err(coord::refuse("unsafe_update: conditional format requires formula"));
        }
        let priority = max_priority(&self.conditional_formats, &range.sheet).saturating_add(1);
        Ok(
            ConditionalFormatRule {
                range,
                rule_type: package::text_or(kind, "cellIs"),
                operator: text_or_empty(operator),
                formula,
                priority,
            },
        )
    }

    fn apply_conditional_format_with_reason(
        &mut self,
        sheet: &str,
        start_row: usize,
        start_col: usize,
        end_row: usize,
        end_col: usize,
        rule: &Fields,
        reason: &str,
    ) -> (r: Result<(), ShadowError>)
        ensures
            (final(self).deep_view(), coord::outcome(r)) == conditional_format_applied(
                old(self).deep_view(),
                sheet@,
                start_row,
                start_col,
                end_row,
                end_col,
                rule.deep_view(),
                reason@,
            ),
    {
        let range = match self.validated_object_range(
            sheet,
            start_row,
            start_col,
            end_row,
            end_col,
        ) {
            Ok(range) => range,
            Err(message) => return Err(ShadowError::Value(message)),
        };
        let place = range.ref_text();
        let asked = match self.format_asked_for(range, rule) {
            Ok(asked) => asked,
            Err(e) => return Err(e),
        };
        let ghost before = self.conditional_formats.deep_view();
        self.conditional_formats.push(asked);
        assert(self.conditional_formats.deep_view() == before.push(asked.deep_view()));
        entries::set_add(&mut self.object_dirty_sheets, sheet.to_owned());
        let told = objects::object_audit_event(
            "conditional_format_update",
            sheet,
            start_row,
            start_col,
            "",
            &place,
            reason,
        );
        self.log(told);
        Ok(())
    }
}

// ----- Clearing rules -----

/// The rules of one kind on a sheet cleared, with the counts for the trail.
pub open spec fn validations_cleared(m: EngineModel, sheet: Seq<char>, reason: Seq<char>) -> (
    EngineModel,
    Fallible<()>,
) {
    match engine::target_refusal(m, sheet, 1, 1) {
        Some(message) => refuse_with(m, message),
        None => (
            engine::logged(
                EngineModel {
                    data_validations: sheet_validations_off(m.data_validations, sheet),
                    object_dirty_sheets: entries::with(m.object_dirty_sheets, sheet),
                    ..m
                },
                objects::event(
                    "data_validation_update"@,
                    sheet,
                    0,
                    0,
                    text::decimal(m.data_validations.len()),
                    "0"@,
                    reason,
                ),
            ),
            Ok(()),
        ),
    }
}

pub open spec fn filter_cleared(m: EngineModel, sheet: Seq<char>, reason: Seq<char>) -> (
    EngineModel,
    Fallible<()>,
) {
    match engine::target_refusal(m, sheet, 1, 1) {
        Some(message) => refuse_with(m, message),
        None => (
            engine::logged(
                EngineModel {
                    auto_filters: filters_off(m.auto_filters, sheet),
                    object_dirty_sheets: entries::with(m.object_dirty_sheets, sheet),
                    ..m
                },
                objects::event("autofilter_update"@, sheet, 0, 0, ""@, ""@, reason),
            ),
            Ok(()),
        ),
    }
}

pub open spec fn formats_cleared(m: EngineModel, sheet: Seq<char>, reason: Seq<char>) -> (
    EngineModel,
    Fallible<()>,
) {
    match engine::target_refusal(m, sheet, 1, 1) {
        Some(message) => refuse_with(m, message),
        None => (
            engine::logged(
                EngineModel {
                    conditional_formats: sheet_formats_off(m.conditional_formats, sheet),
                    object_dirty_sheets: entries::with(m.object_dirty_sheets, sheet),
                    ..m
                },
                objects::event(
                    "conditional_format_update"@,
                    sheet,
                    0,
                    0,
                    text::decimal(m.conditional_formats.len()),
                    "0"@,
                    reason,
                ),
            ),
            Ok(()),
        ),
    }
}

impl SheetShadowEngine {
    fn apply_clear_validations(&mut self, sheet: &str, reason: &str) -> (r: Result<
        (),
        ShadowError,
    >)
        ensures
            (final(self).deep_view(), coord::outcome(r)) == validations_cleared(
                old(self).deep_view(),
                sheet@,
                reason@,
            ),
    {
        match self.target_refused(sheet, 1, 1) {
            Some(message) => return Err(ShadowError::Value(message)),
            None => {},
        }
        assert(self.data_validations.deep_view().len() == self.data_validations.len());
        let count = text::size_text(self.data_validations.len());
        self.data_validations = drop_sheet_validations(&self.data_validations, sheet);
        entries::set_add(&mut self.object_dirty_sheets, sheet.to_owned());
        let told = objects::object_audit_event(
            "data_validation_update",
            sheet,
            0,
            0,
            &count,
            "0",
            reason,
        );
        self.log(told);
        Ok(())
    }

    fn apply_clear_autofilter(&mut self, sheet: &str, reason: &str) -> (r: Result<(), ShadowError>)
        ensures
            (final(self).deep_view(), coord::outcome(r)) == filter_cleared(
                old(self).deep_view(),
                sheet@,
                reason@,
            ),
    {
        match self.target_refused(sheet, 1, 1) {
            Some(message) => return Err(ShadowError::Value(message)),
            None => {},
        }
        self.auto_filters = drop_filters(&self.auto_filters, sheet);
        entries::set_add(&mut self.object_dirty_sheets, sheet.to_owned());
        let told = objects::object_audit_event("autofilter_update", sheet, 0, 0, "", "", reason);
        self.log(told);
        Ok(())
    }

    fn apply_clear_formats(&mut self, sheet: &str, reason: &str) -> (r: Result<(), ShadowError>)
        ensures
            (final(self).deep_view(), coord::outcome(r)) == formats_cleared(
                old(self).deep_view(),
                sheet@,
                reason@,
            ),
    {
        match self.target_refused(sheet, 1, 1) {
            Some(message) => return Err(ShadowError::Value(message)),
            None => {},
        }
        assert(self.conditional_formats.deep_view().len() == self.conditional_formats.len());
        let count = text::size_text(self.conditional_formats.len());
        self.conditional_formats = drop_sheet_formats(&self.conditional_formats, sheet);
        entries::set_add(&mut self.object_dirty_sheets, sheet.to_owned());
        let told = objects::object_audit_event(
            "conditional_format_update",
            sheet,
            0,
            0,
            &count,
            "0",
            reason,
        );
        self.log(told);
        Ok(())
    }
}

// ----- Requests keep a shadow valid -----

/// What is put into the maps and sets of a valid shadow is there once.
proof fn lemma_noted_once(m: EngineModel)
    requires
        m.once_each(),
    ensures
        forall|k: Seq<char>, v: Seq<char>| #[trigger]
            entries::distinct_keys(entries::put(m.drawing_text_updates, k, v)),
        forall|k: Seq<char>, v: Seq<u8>| #[trigger]
            entries::distinct_keys(entries::put(m.image_replacements, k, v)),
        forall|k: Seq<char>, v: Seq<u8>| #[trigger]
            entries::distinct_keys(entries::put(m.ole_replacements, k, v)),
        forall|k: Seq<char>, v: Seq<char>| #[trigger]
            entries::distinct_keys(entries::put(m.chart_title_updates, k, v)),
        forall|k: Seq<char>, v: Seq<char>| #[trigger]
            entries::distinct_keys(entries::put(m.chart_source_updates, k, v)),
        forall|k: Seq<char>, v: Seq<char>| #[trigger]
            entries::distinct_keys(entries::put(m.sparkline_source_updates, k, v)),
        forall|x: Seq<char>| (#[trigger] entries::with(m.drawing_dirty_paths, x)).no_duplicates(),
        forall|x: Seq<char>| (#[trigger] entries::with(m.sparkline_dirty_sheets, x)).no_duplicates(),
        forall|x: Seq<char>| (#[trigger] entries::with(m.sparkline_dirty_objects, x)).no_duplicates(),
        forall|x: Seq<char>| (#[trigger] entries::with(m.pivot_dirty_paths, x)).no_duplicates(),
        forall|x: Seq<char>| (#[trigger] entries::with(m.comment_dirty_sheets, x)).no_duplicates(),
        forall|x: Seq<char>| (#[trigger] entries::with(m.object_dirty_sheets, x)).no_duplicates(),
{
    reveal(EngineModel::once_each);
    assert forall|k: Seq<char>, v: Seq<char>| #[trigger]
        entries::distinct_keys(entries::put(m.drawing_text_updates, k, v)) by {
        entries::law_get_after_put(m.drawing_text_updates, k, v, k);
    }
    assert forall|k: Seq<char>, v: Seq<u8>| #[trigger]
        entries::distinct_keys(entries::put(m.image_replacements, k, v)) by {
        entries::law_get_after_put(m.image_replacements, k, v, k);
    }
    assert forall|k: Seq<char>, v: Seq<u8>| #[trigger]
        entries::distinct_keys(entries::put(m.ole_replacements, k, v)) by {
        entries::law_get_after_put(m.ole_replacements, k, v, k);
    }
    assert forall|k: Seq<char>, v: Seq<char>| #[trigger]
        entries::distinct_keys(entries::put(m.chart_title_updates, k, v)) by {
        entries::law_get_after_put(m.chart_title_updates, k, v, k);
    }
    assert forall|k: Seq<char>, v: Seq<char>| #[trigger]
        entries::distinct_keys(entries::put(m.chart_source_updates, k, v)) by {
        entries::law_get_after_put(m.chart_source_updates, k, v, k);
    }
    assert forall|k: Seq<char>, v: Seq<char>| #[trigger]
        entries::distinct_keys(entries::put(m.sparkline_source_updates, k, v)) by {
        entries::law_get_after_put(m.sparkline_source_updates, k, v, k);
    }
    assert forall|x: Seq<char>| (#[trigger] entries::with(m.drawing_dirty_paths, x)).no_duplicates() by {
        entries::law_sets_hold_members_once(m.drawing_dirty_paths, x);
    }
    assert forall|x: Seq<char>| (#[trigger] entries::with(m.sparkline_dirty_sheets, x)).no_duplicates() by {
        entries::law_sets_hold_members_once(m.sparkline_dirty_sheets, x);
    }
    assert forall|x: Seq<char>| (#[trigger] entries::with(m.sparkline_dirty_objects, x)).no_duplicates() by {
        entries::law_sets_hold_members_once(m.sparkline_dirty_objects, x);
    }
    assert forall|x: Seq<char>| (#[trigger] entries::with(m.pivot_dirty_paths, x)).no_duplicates() by {
        entries::law_sets_hold_members_once(m.pivot_dirty_paths, x);
    }
    assert forall|x: Seq<char>| (#[trigger] entries::with(m.comment_dirty_sheets, x)).no_duplicates() by {
        entries::law_sets_hold_members_once(m.comment_dirty_sheets, x);
    }
    assert forall|x: Seq<char>| (#[trigger] entries::with(m.object_dirty_sheets, x)).no_duplicates() by {
        entries::law_sets_hold_members_once(m.object_dirty_sheets, x);
    }
}

proof fn lemma_drawing_moved_stays_valid(
    m: EngineModel,
    sheet: Seq<char>,
    id: Seq<char>,
    row: usize,
    col: usize,
    reason: Seq<char>,
)
    ensures
        engine::as_valid(m, drawing_moved(m, sheet, id, row, col, reason).0),
{
    reveal(EngineModel::once_each);
    if m.once_each() {
        lemma_noted_once(m);
    }
}

proof fn lemma_drawing_resized_stays_valid(
    m: EngineModel,
    sheet: Seq<char>,
    id: Seq<char>,
    row: usize,
    col: usize,
    reason: Seq<char>,
)
    ensures
        engine::as_valid(m, drawing_resized(m, sheet, id, row, col, reason).0),
{
    reveal(EngineModel::once_each);
    if m.once_each() {
        lemma_noted_once(m);
    }
}

proof fn lemma_image_replaced_stays_valid(
    m: EngineModel,
    sheet: Seq<char>,
    id: Seq<char>,
    path: Seq<char>,
    bytes: Fallible<Seq<u8>>,
    reason: Seq<char>,
)
    ensures
        engine::as_valid(m, image_replaced(m, sheet, id, path, bytes, reason).0),
{
    reveal(EngineModel::once_each);
    if m.once_each() {
        lemma_noted_once(m);
    }
}

proof fn lemma_drawing_text_updated_stays_valid(
    m: EngineModel,
    sheet: Seq<char>,
    id: Seq<char>,
    value: Seq<char>,
    reason: Seq<char>,
)
    ensures
        engine::as_valid(m, drawing_text_updated(m, sheet, id, value, reason).0),
{
    reveal(EngineModel::once_each);
    if m.once_each() {
        lemma_noted_once(m);
    }
}

proof fn lemma_chart_title_updated_stays_valid(
    m: EngineModel,
    sheet: Seq<char>,
    id: Seq<char>,
    title: Seq<char>,
    reason: Seq<char>,
)
    ensures
        engine::as_valid(m, chart_title_updated(m, sheet, id, title, reason).0),
{
    reveal(EngineModel::once_each);
    if m.once_each() {
        lemma_noted_once(m);
    }
}

proof fn lemma_chart_source_updated_stays_valid(
    m: EngineModel,
    sheet: Seq<char>,
    id: Seq<char>,
    range: Seq<char>,
    reason: Seq<char>,
)
    ensures
        engine::as_valid(m, chart_source_updated(m, sheet, id, range, reason).0),
{
    reveal(EngineModel::once_each);
    if m.once_each() {
        lemma_noted_once(m);
    }
}

proof fn lemma_sparkline_updated_stays_valid(
    m: EngineModel,
    sheet: Seq<char>,
    id: Seq<char>,
    source: Seq<char>,
    reason: Seq<char>,
)
    ensures
        engine::as_valid(m, sparkline_updated(m, sheet, id, source, reason).0),
{
    reveal(EngineModel::once_each);
    if m.once_each() {
        lemma_noted_once(m);
    }
}

proof fn lemma_pivot_updated_stays_valid(
    m: EngineModel,
    sheet: Seq<char>,
    id: Seq<char>,
    name: Option<Seq<char>>,
    caption: Option<Seq<char>>,
    reason: Seq<char>,
)
    ensures
        engine::as_valid(m, pivot_updated(m, sheet, id, name, caption, reason).0),
{
    reveal(EngineModel::once_each);
    if m.once_each() {
        lemma_noted_once(m);
    }
}

proof fn lemma_ole_replaced_stays_valid(
    m: EngineModel,
    sheet: Seq<char>,
    id: Seq<char>,
    path: Seq<char>,
    bytes: Fallible<Seq<u8>>,
    reason: Seq<char>,
)
    ensures
        engine::as_valid(m, ole_replaced(m, sheet, id, path, bytes, reason).0),
{
    reveal(EngineModel::once_each);
    if m.once_each() {
        lemma_noted_once(m);
    }
}

proof fn lemma_comment_applied_stays_valid(
    m: EngineModel,
    sheet: Seq<char>,
    row: usize,
    col: usize,
    value: Seq<char>,
    remove: bool,
    reason: Seq<char>,
)
    ensures
        engine::as_valid(m, comment_applied(m, sheet, row, col, value, remove, reason).0),
{
    reveal(EngineModel::once_each);
    if m.once_each() {
        lemma_noted_once(m);
    }
}

proof fn lemma_validation_applied_stays_valid(
    m: EngineModel,
    sheet: Seq<char>,
    start_row: usize,
    start_col: usize,
    end_row: usize,
    end_col: usize,
    fields: FieldsModel,
    reason: Seq<char>,
)
    ensures
        engine::as_valid(m, validation_applied(m, sheet, start_row, start_col, end_row, end_col, fields, reason).0),
{
    reveal(EngineModel::once_each);
    if m.once_each() {
        lemma_noted_once(m);
    }
}

proof fn lemma_filter_applied_stays_valid(
    m: EngineModel,
    sheet: Seq<char>,
    start_row: usize,
    start_col: usize,
    end_row: usize,
    end_col: usize,
    reason: Seq<char>,
)
    ensures
        engine::as_valid(m, filter_applied(m, sheet, start_row, start_col, end_row, end_col, reason).0),
{
    reveal(EngineModel::once_each);
    if m.once_each() {
        lemma_noted_once(m);
    }
}

proof fn lemma_conditional_format_applied_stays_valid(
    m: EngineModel,
    sheet: Seq<char>,
    start_row: usize,
    start_col: usize,
    end_row: usize,
    end_col: usize,
    fields: FieldsModel,
    reason: Seq<char>,
)
    ensures
        engine::as_valid(m, conditional_format_applied(m, sheet, start_row, start_col, end_row, end_col, fields, reason).0),
{
    reveal(EngineModel::once_each);
    if m.once_each() {
        lemma_noted_once(m);
    }
}

proof fn lemma_validations_cleared_stays_valid(
    m: EngineModel,
    sheet: Seq<char>,
    reason: Seq<char>,
)
    ensures
        engine::as_valid(m, validations_cleared(m, sheet, reason).0),
{
    reveal(EngineModel::once_each);
    if m.once_each() {
        lemma_noted_once(m);
    }
}

proof fn lemma_filter_cleared_stays_valid(
    m: EngineModel,
    sheet: Seq<char>,
    reason: Seq<char>,
)
    ensures
        engine::as_valid(m, filter_cleared(m, sheet, reason).0),
{
    reveal(EngineModel::once_each);
    if m.once_each() {
        lemma_noted_once(m);
    }
}

proof fn lemma_formats_cleared_stays_valid(
    m: EngineModel,
    sheet: Seq<char>,
    reason: Seq<char>,
)
    ensures
        engine::as_valid(m, formats_cleared(m, sheet, reason).0),
{
    reveal(EngineModel::once_each);
    if m.once_each() {
        lemma_noted_once(m);
    }
}

// ----- Requests -----

impl SheetShadowEngine {
    pub fn move_drawing_object(
        &mut self,
        sheet: &str,
        object_id: &str,
        start_row: usize,
        start_col: usize,
    ) -> (r: Result<Vec<Fields>, ShadowError>)
        ensures
            ({
                let done = drawing_moved(
                    old(self).deep_view(),
                    sheet@,
                    object_id@,
                    start_row,
                    start_col,
                    "move_drawing_object"@,
                );
                &&& final(self).deep_view() == done.0
                &&& recalc::reports_view(r) == sheetops::reported(done)
            }),
            old(self).deep_view().wf() ==> final(self).deep_view().wf(),
    {
        proof {
            lemma_drawing_moved_stays_valid(self.deep_view(), sheet@, object_id@, start_row, start_col, "move_drawing_object"@);
        }
        match self.apply_move_drawing_object(sheet, object_id, start_row, start_col, "move_drawing_object") {
            Ok(_) => Ok(self.audit_report()),
            Err(e) => Err(e),
        }
    }

    pub fn preview_move_drawing_object(
        &self,
        sheet: &str,
        object_id: &str,
        start_row: usize,
        start_col: usize,
    ) -> (r: Result<Vec<Fields>, ShadowError>)
        ensures
            recalc::reports_view(r) == sheetops::reported(
                drawing_moved(
                    engine::untold(self.deep_view()),
                    sheet@,
                    object_id@,
                    start_row,
                    start_col,
                    "preview_move_drawing_object"@,
                ),
            ),
    {
        let mut preview = self.copied();
        preview.clear_audit_log();
        match preview.apply_move_drawing_object(sheet, object_id, start_row, start_col, "preview_move_drawing_object") {
            Ok(_) => Ok(preview.audit_report()),
            Err(e) => Err(e),
        }
    }
}

impl SheetShadowEngine {
    pub fn resize_drawing_object(
        &mut self,
        sheet: &str,
        object_id: &str,
        end_row: usize,
        end_col: usize,
    ) -> (r: Result<Vec<Fields>, ShadowError>)
        ensures
            ({
                let done = drawing_resized(
                    old(self).deep_view(),
                    sheet@,
                    object_id@,
                    end_row,
                    end_col,
                    "resize_drawing_object"@,
                );
                &&& final(self).deep_view() == done.0
                &&& recalc::reports_view(r) == sheetops::reported(done)
            }),
            old(self).deep_view().wf() ==> final(self).deep_view().wf(),
    {
        proof {
            lemma_drawing_resized_stays_valid(self.deep_view(), sheet@, object_id@, end_row, end_col, "resize_drawing_object"@);
        }
        match self.apply_resize_drawing_object(sheet, object_id, end_row, end_col, "resize_drawing_object") {
            Ok(_) => Ok(self.audit_report()),
            Err(e) => Err(e),
        }
    }

    pub fn preview_resize_drawing_object(
        &self,
        sheet: &str,
        object_id: &str,
        end_row: usize,
        end_col: usize,
    ) -> (r: Result<Vec<Fields>, ShadowError>)
        ensures
            recalc::reports_view(r) == sheetops::reported(
                drawing_resized(
                    engine::untold(self.deep_view()),
                    sheet@,
                    object_id@,
                    end_row,
                    end_col,
                    "preview_resize_drawing_object"@,
                ),
            ),
    {
        let mut preview = self.copied();
        preview.clear_audit_log();
        match preview.apply_resize_drawing_object(sheet, object_id, end_row, end_col, "preview_resize_drawing_object") {
            Ok(_) => Ok(preview.audit_report()),
            Err(e) => Err(e),
        }
    }
}

impl SheetShadowEngine {
    pub fn replace_image(
        &mut self,
        sheet: &str,
        object_id: &str,
        image_path: &str,
        bytes: &Result<Vec<u8>, ShadowError>,
    ) -> (r: Result<Vec<Fields>, ShadowError>)
        ensures
            ({
                let done = image_replaced(
                    old(self).deep_view(),
                    sheet@,
                    object_id@,
                    image_path@,
                    bytes_view(*bytes),
                    "replace_image"@,
                );
                &&& final(self).deep_view() == done.0
                &&& recalc::reports_view(r) == sheetops::reported(done)
            }),
            old(self).deep_view().wf() ==> final(self).deep_view().wf(),
    {
        proof {
            lemma_image_replaced_stays_valid(self.deep_view(), sheet@, object_id@, image_path@, bytes_view(*bytes), "replace_image"@);
        }
        match self.apply_replace_image(sheet, object_id, image_path, bytes, "replace_image") {
            Ok(_) => Ok(self.audit_report()),
            Err(e) => Err(e),
        }
    }

    pub fn preview_replace_image(
        &self,
        sheet: &str,
        object_id: &str,
        image_path: &str,
        bytes: &Result<Vec<u8>, ShadowError>,
    ) -> (r: Result<Vec<Fields>, ShadowError>)
        ensures
            recalc::reports_view(r) == sheetops::reported(
                image_replaced(
                    engine::untold(self.deep_view()),
                    sheet@,
                    object_id@,
                    image_path@,
                    bytes_view(*bytes),
                    "preview_replace_image"@,
                ),
            ),
    {
        let mut preview = self.copied();
        preview.clear_audit_log();
        match preview.apply_replace_image(sheet, object_id, image_path, bytes, "preview_replace_image") {
            Ok(_) => Ok(preview.audit_report()),
            Err(e) => Err(e),
        }
    }
}

impl SheetShadowEngine {
    pub fn update_drawing_text(
        &mut self,
        sheet: &str,
        object_id: &str,
        value: &str,
    ) -> (r: Result<Vec<Fields>, ShadowError>)
        ensures
            ({
                let done = drawing_text_updated(
                    old(self).deep_view(),
                    sheet@,
                    object_id@,
                    value@,
                    "update_drawing_text"@,
                );
                &&& final(self).deep_view() == done.0
                &&& recalc::reports_view(r) == sheetops::reported(done)
            }),
            old(self).deep_view().wf() ==> final(self).deep_view().wf(),
    {
        proof {
            lemma_drawing_text_updated_stays_valid(self.deep_view(), sheet@, object_id@, value@, "update_drawing_text"@);
        }
        match self.apply_update_drawing_text(sheet, object_id, value, "update_drawing_text") {
            Ok(_) => Ok(self.audit_report()),
            Err(e) => Err(e),
        }
    }

    pub fn preview_update_drawing_text(
        &self,
        sheet: &str,
        object_id: &str,
        value: &str,
    ) -> (r: Result<Vec<Fields>, ShadowError>)
        ensures
            recalc::reports_view(r) == sheetops::reported(
                drawing_text_updated(
                    engine::untold(self.deep_view()),
                    sheet@,
                    object_id@,
                    value@,
                    "preview_update_drawing_text"@,
                ),
            ),
    {
        let mut preview = self.copied();
        preview.clear_audit_log();
        match preview.apply_update_drawing_text(sheet, object_id, value, "preview_update_drawing_text") {
            Ok(_) => Ok(preview.audit_report()),
            Err(e) => Err(e),
        }
    }
}

impl SheetShadowEngine {
    pub fn update_chart_title(
        &mut self,
        sheet: &str,
        object_id: &str,
        title: &str,
    ) -> (r: Result<Vec<Fields>, ShadowError>)
        ensures
            ({
                let done = chart_title_updated(
                    old(self).deep_view(),
                    sheet@,
                    object_id@,
                    title@,
                    "update_chart_title"@,
                );
                &&& final(self).deep_view() == done.0
                &&& recalc::reports_view(r) == sheetops::reported(done)
            }),
            old(self).deep_view().wf() ==> final(self).deep_view().wf(),
    {
        proof {
            lemma_chart_title_updated_stays_valid(self.deep_view(), sheet@, object_id@, title@, "update_chart_title"@);
        }
        match self.apply_update_chart_title(sheet, object_id, title, "update_chart_title") {
            Ok(_) => Ok(self.audit_report()),
            Err(e) => Err(e),
        }
    }

    pub fn preview_update_chart_title(
        &self,
        sheet: &str,
        object_id: &str,
        title: &str,
    ) -> (r: Result<Vec<Fields>, ShadowError>)
        ensures
            recalc::reports_view(r) == sheetops::reported(
                chart_title_updated(
                    engine::untold(self.deep_view()),
                    sheet@,
                    object_id@,
                    title@,
                    "preview_update_chart_title"@,
                ),
            ),
    {
        let mut preview = self.copied();
        preview.clear_audit_log();
        match preview.apply_update_chart_title(sheet, object_id, title, "preview_update_chart_title") {
            Ok(_) => Ok(preview.audit_report()),
            Err(e) => Err(e),
        }
    }
}

impl SheetShadowEngine {
    pub fn update_chart_source(
        &mut self,
        sheet: &str,
        object_id: &str,
        range: &str,
    ) -> (r: Result<Vec<Fields>, ShadowError>)
        ensures
            ({
                let done = chart_source_updated(
                    old(self).deep_view(),
                    sheet@,
                    object_id@,
                    range@,
                    "update_chart_source"@,
                );
                &&& final(self).deep_view() == done.0
                &&& recalc::reports_view(r) == sheetops::reported(done)
            }),
            old(self).deep_view().wf() ==> final(self).deep_view().wf(),
    {
        proof {
            lemma_chart_source_updated_stays_valid(self.deep_view(), sheet@, object_id@, range@, "update_chart_source"@);
        }
        match self.apply_update_chart_source(sheet, object_id, range, "update_chart_source") {
            Ok(_) => Ok(self.audit_report()),
            Err(e) => Err(e),
        }
    }

    pub fn preview_update_chart_source(
        &self,
        sheet: &str,
        object_id: &str,
        range: &str,
    ) -> (r: Result<Vec<Fields>, ShadowError>)
        ensures
            recalc::reports_view(r) == sheetops::reported(
                chart_source_updated(
                    engine::untold(self.deep_view()),
                    sheet@,
                    object_id@,
                    range@,
                    "preview_update_chart_source"@,
                ),
            ),
    {
        let mut preview = self.copied();
        preview.clear_audit_log();
        match preview.apply_update_chart_source(sheet, object_id, range, "preview_update_chart_source") {
            Ok(_) => Ok(preview.audit_report()),
            Err(e) => Err(e),
        }
    }
}

impl SheetShadowEngine {
    pub fn update_sparkline_source(
        &mut self,
        sheet: &str,
        object_id: &str,
        source_formula: &str,
    ) -> (r: Result<Vec<Fields>, ShadowError>)
        ensures
            ({
                let done = sparkline_updated(
                    old(self).deep_view(),
                    sheet@,
                    object_id@,
                    source_formula@,
                    "update_sparkline_source"@,
                );
                &&& final(self).deep_view() == done.0
                &&& recalc::reports_view(r) == sheetops::reported(done)
            }),
            old(self).deep_view().wf() ==> final(self).deep_view().wf(),
    {
        proof {
            lemma_sparkline_updated_stays_valid(self.deep_view(), sheet@, object_id@, source_formula@, "update_sparkline_source"@);
        }
        match self.apply_update_sparkline_source(sheet, object_id, source_formula, "update_sparkline_source") {
            Ok(_) => Ok(self.audit_report()),
            Err(e) => Err(e),
        }
    }

    pub fn preview_update_sparkline_source(
        &self,
        sheet: &str,
        object_id: &str,
        source_formula: &str,
    ) -> (r: Result<Vec<Fields>, ShadowError>)
        ensures
            recalc::reports_view(r) == sheetops::reported(
                sparkline_updated(
                    engine::untold(self.deep_view()),
                    sheet@,
                    object_id@,
                    source_formula@,
                    "preview_update_sparkline_source"@,
                ),
            ),
    {
        let mut preview = self.copied();
        preview.clear_audit_log();
        match preview.apply_update_sparkline_source(sheet, object_id, source_formula, "preview_update_sparkline_source") {
            Ok(_) => Ok(preview.audit_report()),
            Err(e) => Err(e),
        }
    }
}

impl SheetShadowEngine {
    pub fn update_pivot_metadata(
        &mut self,
        sheet: &str,
        object_id: &str,
        name: &Option<String>,
        data_caption: &Option<String>,
    ) -> (r: Result<Vec<Fields>, ShadowError>)
        ensures
            ({
                let done = pivot_updated(
                    old(self).deep_view(),
                    sheet@,
                    object_id@,
                    name.deep_view(),
                    data_caption.deep_view(),
                    "update_pivot_metadata"@,
                );
                &&& final(self).deep_view() == done.0
                &&& recalc::reports_view(r) == sheetops::reported(done)
            }),
            old(self).deep_view().wf() ==> final(self).deep_view().wf(),
    {
        proof {
            lemma_pivot_updated_stays_valid(self.deep_view(), sheet@, object_id@, name.deep_view(), data_caption.deep_view(), "update_pivot_metadata"@);
        }
        match self.apply_update_pivot_metadata(sheet, object_id, name, data_caption, "update_pivot_metadata") {
            Ok(_) => Ok(self.audit_report()),
            Err(e) => Err(e),
        }
    }

    pub fn preview_update_pivot_metadata(
        &self,
        sheet: &str,
        object_id: &str,
        name: &Option<String>,
        data_caption: &Option<String>,
    ) -> (r: Result<Vec<Fields>, ShadowError>)
        ensures
            recalc::reports_view(r) == sheetops::reported(
                pivot_updated(
                    engine::untold(self.deep_view()),
                    sheet@,
                    object_id@,
                    name.deep_view(),
                    data_caption.deep_view(),
                    "preview_update_pivot_metadata"@,
                ),
            ),
    {
        let mut preview = self.copied();
        preview.clear_audit_log();
        match preview.apply_update_pivot_metadata(sheet, object_id, name, data_caption, "preview_update_pivot_metadata") {
            Ok(_) => Ok(preview.audit_report()),
            Err(e) => Err(e),
        }
    }
}

impl SheetShadowEngine {
    pub fn replace_ole_object(
        &mut self,
        sheet: &str,
        object_id: &str,
        ole_path: &str,
        bytes: &Result<Vec<u8>, ShadowError>,
    ) -> (r: Result<Vec<Fields>, ShadowError>)
        ensures
            ({
                let done = ole_replaced(
                    old(self).deep_view(),
                    sheet@,
                    object_id@,
                    ole_path@,
                    bytes_view(*bytes),
                    "replace_ole_object"@,
                );
                &&& final(self).deep_view() == done.0
                &&& recalc::reports_view(r) == sheetops::reported(done)
            }),
            old(self).deep_view().wf() ==> final(self).deep_view().wf(),
    {
        proof {
            lemma_ole_replaced_stays_valid(self.deep_view(), sheet@, object_id@, ole_path@, bytes_view(*bytes), "replace_ole_object"@);
        }
        match self.apply_replace_ole_object(sheet, object_id, ole_path, bytes, "replace_ole_object") {
            Ok(_) => Ok(self.audit_report()),
            Err(e) => Err(e),
        }
    }

    pub fn preview_replace_ole_object(
        &self,
        sheet: &str,
        object_id: &str,
        ole_path: &str,
        bytes: &Result<Vec<u8>, ShadowError>,
    ) -> (r: Result<Vec<Fields>, ShadowError>)
        ensures
            recalc::reports_view(r) == sheetops::reported(
                ole_replaced(
                    engine::untold(self.deep_view()),
                    sheet@,
                    object_id@,
                    ole_path@,
                    bytes_view(*bytes),
                    "preview_replace_ole_object"@,
                ),
            ),
    {
        let mut preview = self.copied();
        preview.clear_audit_log();
        match preview.apply_replace_ole_object(sheet, object_id, ole_path, bytes, "preview_replace_ole_object") {
            Ok(_) => Ok(preview.audit_report()),
            Err(e) => Err(e),
        }
    }
}

impl SheetShadowEngine {
    pub fn set_comment(
        &mut self,
        sheet: &str,
        row: usize,
        col: usize,
        value: &str,
    ) -> (r: Result<Vec<Fields>, ShadowError>)
        ensures
            ({
                let done = comment_applied(
                    old(self).deep_view(),
                    sheet@,
                    row,
                    col,
                    value@,
                    false,
                    "set_comment"@,
                );
                &&& final(self).deep_view() == done.0
                &&& recalc::reports_view(r) == sheetops::reported(done)
            }),
            old(self).deep_view().wf() ==> final(self).deep_view().wf(),
    {
        proof {
            lemma_comment_applied_stays_valid(self.deep_view(), sheet@, row, col, value@, false, "set_comment"@);
        }
        match self.apply_comment_with_reason(sheet, row, col, value, false, "set_comment") {
            Ok(_) => Ok(self.audit_report()),
            Err(e) => Err(e),
        }
    }

    pub fn preview_set_comment(
        &self,
        sheet: &str,
        row: usize,
        col: usize,
        value: &str,
    ) -> (r: Result<Vec<Fields>, ShadowError>)
        ensures
            recalc::reports_view(r) == sheetops::reported(
                comment_applied(
                    engine::untold(self.deep_view()),
                    sheet@,
                    row,
                    col,
                    value@,
                    false,
                    "preview_set_comment"@,
                ),
            ),
    {
        let mut preview = self.copied();
        preview.clear_audit_log();
        match preview.apply_comment_with_reason(sheet, row, col, value, false, "preview_set_comment") {
            Ok(_) => Ok(preview.audit_report()),
            Err(e) => Err(e),
        }
    }
}

impl SheetShadowEngine {
    pub fn remove_comment(
        &mut self,
        sheet: &str,
        row: usize,
        col: usize,
    ) -> (r: Result<Vec<Fields>, ShadowError>)
        ensures
            ({
                let done = comment_applied(
                    old(self).deep_view(),
                    sheet@,
                    row,
                    col,
                    ""@,
                    true,
                    "remove_comment"@,
                );
                &&& final(self).deep_view() == done.0
                &&& recalc::reports_view(r) == sheetops::reported(done)
            }),
            old(self).deep_view().wf() ==> final(self).deep_view().wf(),
    {
        proof {
            lemma_comment_applied_stays_valid(self.deep_view(), sheet@, row, col, ""@, true, "remove_comment"@);
        }
        match self.apply_comment_with_reason(sheet, row, col, "", true, "remove_comment") {
            Ok(_) => Ok(self.audit_report()),
            Err(e) => Err(e),
        }
    }
}

impl SheetShadowEngine {
    pub fn set_data_validation(
        &mut self,
        sheet: &str,
        start_row: usize,
        start_col: usize,
        end_row: usize,
        end_col: usize,
        rule: &Fields,
    ) -> (r: Result<Vec<Fields>, ShadowError>)
        ensures
            ({
                let done = validation_applied(
                    old(self).deep_view(),
                    sheet@,
                    start_row,
                    start_col,
                    end_row,
                    end_col,
                    rule.deep_view(),
                    "set_data_validation"@,
                );
                &&& final(self).deep_view() == done.0
                &&& recalc::reports_view(r) == sheetops::reported(done)
            }),
            old(self).deep_view().wf() ==> final(self).deep_view().wf(),
    {
        proof {
            lemma_validation_applied_stays_valid(self.deep_view(), sheet@, start_row, start_col, end_row, end_col, rule.deep_view(), "set_data_validation"@);
        }
        match self.apply_data_validation_with_reason(sheet, start_row, start_col, end_row, end_col, rule, "set_data_validation") {
            Ok(_) => Ok(self.audit_report()),
            Err(e) => Err(e),
        }
    }

    pub fn preview_set_data_validation(
        &self,
        sheet: &str,
        start_row: usize,
        start_col: usize,
        end_row: usize,
        end_col: usize,
        rule: &Fields,
    ) -> (r: Result<Vec<Fields>, ShadowError>)
        ensures
            recalc::reports_view(r) == sheetops::reported(
                validation_applied(
                    engine::untold(self.deep_view()),
                    sheet@,
                    start_row,
                    start_col,
                    end_row,
                    end_col,
                    rule.deep_view(),
                    "preview_set_data_validation"@,
                ),
            ),
    {
        let mut preview = self.copied();
        preview.clear_audit_log();
        match preview.apply_data_validation_with_reason(sheet, start_row, start_col, end_row, end_col, rule, "preview_set_data_validation") {
            Ok(_) => Ok(preview.audit_report()),
            Err(e) => Err(e),
        }
    }
}

impl SheetShadowEngine {
    pub fn set_autofilter(
        &mut self,
        sheet: &str,
        start_row: usize,
        start_col: usize,
        end_row: usize,
        end_col: usize,
    ) -> (r: Result<Vec<Fields>, ShadowError>)
        ensures
            ({
                let done = filter_applied(
                    old(self).deep_view(),
                    sheet@,
                    start_row,
                    start_col,
                    end_row,
                    end_col,
                    "set_autofilter"@,
                );
                &&& final(self).deep_view() == done.0
                &&& recalc::reports_view(r) == sheetops::reported(done)
            }),
            old(self).deep_view().wf() ==> final(self).deep_view().wf(),
    {
        proof {
            lemma_filter_applied_stays_valid(self.deep_view(), sheet@, start_row, start_col, end_row, end_col, "set_autofilter"@);
        }
        match self.apply_autofilter_with_reason(sheet, start_row, start_col, end_row, end_col, "set_autofilter") {
            Ok(_) => Ok(self.audit_report()),
            Err(e) => Err(e),
        }
    }

    pub fn preview_set_autofilter(
        &self,
        sheet: &str,
        start_row: usize,
        start_col: usize,
        end_row: usize,
        end_col: usize,
    ) -> (r: Result<Vec<Fields>, ShadowError>)
        ensures
            recalc::reports_view(r) == sheetops::reported(
                filter_applied(
                    engine::untold(self.deep_view()),
                    sheet@,
                    start_row,
                    start_col,
                    end_row,
                    end_col,
                    "preview_set_autofilter"@,
                ),
            ),
    {
        let mut preview = self.copied();
        preview.clear_audit_log();
        match preview.apply_autofilter_with_reason(sheet, start_row, start_col, end_row, end_col, "preview_set_autofilter") {
            Ok(_) => Ok(preview.audit_report()),
            Err(e) => Err(e),
        }
    }
}

impl SheetShadowEngine {
    pub fn add_conditional_format(
        &mut self,
        sheet: &str,
        start_row: usize,
        start_col: usize,
        end_row: usize,
        end_col: usize,
        rule: &Fields,
    ) -> (r: Result<Vec<Fields>, ShadowError>)
        ensures
            ({
                let done = conditional_format_applied(
                    old(self).deep_view(),
                    sheet@,
                    start_row,
                    start_col,
                    end_row,
                    end_col,
                    rule.deep_view(),
                    "add_conditional_format"@,
                );
                &&& final(self).deep_view() == done.0
                &&& recalc::reports_view(r) == sheetops::reported(done)
            }),
            old(self).deep_view().wf() ==> final(self).deep_view().wf(),
    {
        proof {
            lemma_conditional_format_applied_stays_valid(self.deep_view(), sheet@, start_row, start_col, end_row, end_col, rule.deep_view(), "add_conditional_format"@);
        }
        match self.apply_conditional_format_with_reason(sheet, start_row, start_col, end_row, end_col, rule, "add_conditional_format") {
            Ok(_) => Ok(self.audit_report()),
            Err(e) => Err(e),
        }
    }

    pub fn preview_add_conditional_format(
        &self,
        sheet: &str,
        start_row: usize,
        start_col: usize,
        end_row: usize,
        end_col: usize,
        rule: &Fields,
    ) -> (r: Result<Vec<Fields>, ShadowError>)
        ensures
            recalc::reports_view(r) == sheetops::reported(
                conditional_format_applied(
                    engine::untold(self.deep_view()),
                    sheet@,
                    start_row,
                    start_col,
                    end_row,
                    end_col,
                    rule.deep_view(),
                    "preview_add_conditional_format"@,
                ),
            ),
    {
        let mut preview = self.copied();
        preview.clear_audit_log();
        match preview.apply_conditional_format_with_reason(sheet, start_row, start_col, end_row, end_col, rule, "preview_add_conditional_format") {
            Ok(_) => Ok(preview.audit_report()),
            Err(e) => Err(e),
        }
    }
}

impl SheetShadowEngine {
    pub fn clear_data_validations(
        &mut self,
        sheet: &str,
    ) -> (r: Result<Vec<Fields>, ShadowError>)
        ensures
            ({
                let done = validations_cleared(
                    old(self).deep_view(),
                    sheet@,
                    "clear_data_validations"@,
                );
                &&& final(self).deep_view() == done.0
                &&& recalc::reports_view(r) == sheetops::reported(done)
            }),
            old(self).deep_view().wf() ==> final(self).deep_view().wf(),
    {
        proof {
            lemma_validations_cleared_stays_valid(self.deep_view(), sheet@, "clear_data_validations"@);
        }
        match self.apply_clear_validations(sheet, "clear_data_validations") {
            Ok(_) => Ok(self.audit_report()),
            Err(e) => Err(e),
        }
    }
}

impl SheetShadowEngine {
    pub fn clear_autofilter(
        &mut self,
        sheet: &str,
    ) -> (r: Result<Vec<Fields>, ShadowError>)
        ensures
            ({
                let done = filter_cleared(
                    old(self).deep_view(),
                    sheet@,
                    "clear_autofilter"@,
                );
                &&& final(self).deep_view() == done.0
                &&& recalc::reports_view(r) == sheetops::reported(done)
            }),
            old(self).deep_view().wf() ==> final(self).deep_view().wf(),
    {
        proof {
            lemma_filter_cleared_stays_valid(self.deep_view(), sheet@, "clear_autofilter"@);
        }
        match self.apply_clear_autofilter(sheet, "clear_autofilter") {
            Ok(_) => Ok(self.audit_report()),
            Err(e) => Err(e),
        }
    }
}

impl SheetShadowEngine {
    pub fn clear_conditional_formats(
        &mut self,
        sheet: &str,
    ) -> (r: Result<Vec<Fields>, ShadowError>)
        ensures
            ({
                let done = formats_cleared(
                    old(self).deep_view(),
                    sheet@,
                    "clear_conditional_formats"@,
                );
                &&& final(self).deep_view() == done.0
                &&& recalc::reports_view(r) == sheetops::reported(done)
            }),
            old(self).deep_view().wf() ==> final(self).deep_view().wf(),
    {
        proof {
            lemma_formats_cleared_stays_valid(self.deep_view(), sheet@, "clear_conditional_formats"@);
        }
        match self.apply_clear_formats(sheet, "clear_conditional_formats") {
            Ok(_) => Ok(self.audit_report()),
            Err(e) => Err(e),
        }
    }
}

// ----- Trying out -----

/// The object that a request is about.
pub open spec fn risk_object(m: EngineModel, sheet: Seq<char>, id: Seq<char>) -> HighRiskObject<
    Seq<char>,
> {
    m.high_risk_objects[risk_place(m.high_risk_objects, sheet, id, 0)->Some_0]
}

/// Trying out a move of a drawing comes to the same as moving it.
pub proof fn law_preview_tells_what_moving_a_drawing_does(
    m: EngineModel,
    sheet: Seq<char>,
    id: Seq<char>,
    row: usize,
    col: usize,
    reason: Seq<char>,
    other: Seq<char>,
)
    ensures
        sheetops::tells_the_same(
            m,
            drawing_moved(m, sheet, id, row, col, reason),
            drawing_moved(engine::untold(m), sheet, id, row, col, other),
            other,
            reason,
        ),
{
    let applied = drawing_moved(m, sheet, id, row, col, reason);
    let tried = drawing_moved(engine::untold(m), sheet, id, row, col, other);
    sheetops::lemma_nothing_told(m);
    if applied.1 is Ok {
        let x = applied.0.audit_events.last();
        let y = tried.0.audit_events.last();
        assert(applied.0.audit_events == m.audit_events.push(x));
        assert(recalc::told_since(m, applied.0) == seq![x]);
        assert(m.audit_events + seq![x] == m.audit_events.push(x));
        assert(tried.0.audit_events == seq![y]);
        assert(x == recalc::relabelled(y, other, reason));
    }
}

/// Trying out another size of a drawing comes to the same as setting it.
pub proof fn law_preview_tells_what_resizing_a_drawing_does(
    m: EngineModel,
    sheet: Seq<char>,
    id: Seq<char>,
    row: usize,
    col: usize,
    reason: Seq<char>,
    other: Seq<char>,
)
    ensures
        sheetops::tells_the_same(
            m,
            drawing_resized(m, sheet, id, row, col, reason),
            drawing_resized(engine::untold(m), sheet, id, row, col, other),
            other,
            reason,
        ),
{
    let applied = drawing_resized(m, sheet, id, row, col, reason);
    let tried = drawing_resized(engine::untold(m), sheet, id, row, col, other);
    sheetops::lemma_nothing_told(m);
    if applied.1 is Ok {
        let x = applied.0.audit_events.last();
        let y = tried.0.audit_events.last();
        assert(applied.0.audit_events == m.audit_events.push(x));
        assert(recalc::told_since(m, applied.0) == seq![x]);
        assert(m.audit_events + seq![x] == m.audit_events.push(x));
        assert(tried.0.audit_events == seq![y]);
        assert(x == recalc::relabelled(y, other, reason));
    }
}

/// Trying out another image comes to the same as replacing it.
pub proof fn law_preview_tells_what_replacing_an_image_does(
    m: EngineModel,
    sheet: Seq<char>,
    id: Seq<char>,
    path: Seq<char>,
    bytes: Fallible<Seq<u8>>,
    reason: Seq<char>,
    other: Seq<char>,
)
    ensures
        sheetops::tells_the_same(
            m,
            image_replaced(m, sheet, id, path, bytes, reason),
            image_replaced(engine::untold(m), sheet, id, path, bytes, other),
            other,
            reason,
        ),
{
    let applied = image_replaced(m, sheet, id, path, bytes, reason);
    let tried = image_replaced(engine::untold(m), sheet, id, path, bytes, other);
    sheetops::lemma_nothing_told(m);
    if applied.1 is Ok {
        let x = applied.0.audit_events.last();
        let y = tried.0.audit_events.last();
        assert(applied.0.audit_events == m.audit_events.push(x));
        assert(recalc::told_since(m, applied.0) == seq![x]);
        assert(m.audit_events + seq![x] == m.audit_events.push(x));
        assert(tried.0.audit_events == seq![y]);
        assert(x == recalc::relabelled(y, other, reason));
    }
}

/// Trying out a text of a drawing comes to the same as setting it.
pub proof fn law_preview_tells_what_a_drawing_text_does(
    m: EngineModel,
    sheet: Seq<char>,
    id: Seq<char>,
    value: Seq<char>,
    reason: Seq<char>,
    other: Seq<char>,
)
    ensures
        sheetops::tells_the_same(
            m,
            drawing_text_updated(m, sheet, id, value, reason),
            drawing_text_updated(engine::untold(m), sheet, id, value, other),
            other,
            reason,
        ),
{
    let applied = drawing_text_updated(m, sheet, id, value, reason);
    let tried = drawing_text_updated(engine::untold(m), sheet, id, value, other);
    sheetops::lemma_nothing_told(m);
    if applied.1 is Ok {
        let x = applied.0.audit_events.last();
        let y = tried.0.audit_events.last();
        assert(applied.0.audit_events == m.audit_events.push(x));
        assert(recalc::told_since(m, applied.0) == seq![x]);
        assert(m.audit_events + seq![x] == m.audit_events.push(x));
        assert(tried.0.audit_events == seq![y]);
        assert(x == recalc::relabelled(y, other, reason));
    }
}

/// Trying out a chart title comes to the same as setting it.
pub proof fn law_preview_tells_what_a_chart_title_does(
    m: EngineModel,
    sheet: Seq<char>,
    id: Seq<char>,
    title: Seq<char>,
    reason: Seq<char>,
    other: Seq<char>,
)
    ensures
        sheetops::tells_the_same(
            m,
            chart_title_updated(m, sheet, id, title, reason),
            chart_title_updated(engine::untold(m), sheet, id, title, other),
            other,
            reason,
        ),
{
    let applied = chart_title_updated(m, sheet, id, title, reason);
    let tried = chart_title_updated(engine::untold(m), sheet, id, title, other);
    sheetops::lemma_nothing_told(m);
    if applied.1 is Ok {
        let x = applied.0.audit_events.last();
        let y = tried.0.audit_events.last();
        assert(applied.0.audit_events == m.audit_events.push(x));
        assert(recalc::told_since(m, applied.0) == seq![x]);
        assert(m.audit_events + seq![x] == m.audit_events.push(x));
        assert(tried.0.audit_events == seq![y]);
        assert(x == recalc::relabelled(y, other, reason));
    }
}

/// Trying out a chart source comes to the same as setting it.
pub proof fn law_preview_tells_what_a_chart_source_does(
    m: EngineModel,
    sheet: Seq<char>,
    id: Seq<char>,
    range: Seq<char>,
    reason: Seq<char>,
    other: Seq<char>,
)
    ensures
        sheetops::tells_the_same(
            m,
            chart_source_updated(m, sheet, id, range, reason),
            chart_source_updated(engine::untold(m), sheet, id, range, other),
            other,
            reason,
        ),
{
    let applied = chart_source_updated(m, sheet, id, range, reason);
    let tried = chart_source_updated(engine::untold(m), sheet, id, range, other);
    sheetops::lemma_nothing_told(m);
    if applied.1 is Ok {
        let x = applied.0.audit_events.last();
        let y = tried.0.audit_events.last();
        assert(applied.0.audit_events == m.audit_events.push(x));
        assert(recalc::told_since(m, applied.0) == seq![x]);
        assert(m.audit_events + seq![x] == m.audit_events.push(x));
        assert(tried.0.audit_events == seq![y]);
        assert(x == recalc::relabelled(y, other, reason));
    }
}

/// Trying out a sparkline source comes to the same as setting it.
pub proof fn law_preview_tells_what_a_sparkline_source_does(
    m: EngineModel,
    sheet: Seq<char>,
    id: Seq<char>,
    source: Seq<char>,
    reason: Seq<char>,
    other: Seq<char>,
)
    ensures
        sheetops::tells_the_same(
            m,
            sparkline_updated(m, sheet, id, source, reason),
            sparkline_updated(engine::untold(m), sheet, id, source, other),
            other + ":sqref="@ + risk_object(m, sheet, id).ref_text,
            reason + ":sqref="@ + risk_object(m, sheet, id).ref_text,
        ),
{
    let applied = sparkline_updated(m, sheet, id, source, reason);
    let tried = sparkline_updated(engine::untold(m), sheet, id, source, other);
    sheetops::lemma_nothing_told(m);
    if applied.1 is Ok {
        let x = applied.0.audit_events.last();
        let y = tried.0.audit_events.last();
        assert(applied.0.audit_events == m.audit_events.push(x));
        assert(recalc::told_since(m, applied.0) == seq![x]);
        assert(m.audit_events + seq![x] == m.audit_events.push(x));
        assert(tried.0.audit_events == seq![y]);
        let trial = other + ":sqref="@ + risk_object(m, sheet, id).ref_text;
        let carried_out = reason + ":sqref="@ + risk_object(m, sheet, id).ref_text;
        assert(x == recalc::relabelled(y, trial, carried_out));
    }
}

/// Trying out names of a pivot table comes to the same as setting them.
pub proof fn law_preview_tells_what_pivot_metadata_does(
    m: EngineModel,
    sheet: Seq<char>,
    id: Seq<char>,
    name: Option<Seq<char>>,
    caption: Option<Seq<char>>,
    reason: Seq<char>,
    other: Seq<char>,
)
    ensures
        sheetops::tells_the_same(
            m,
            pivot_updated(m, sheet, id, name, caption, reason),
            pivot_updated(engine::untold(m), sheet, id, name, caption, other),
            other + ":target="@ + risk_object(m, sheet, id).target_path,
            reason + ":target="@ + risk_object(m, sheet, id).target_path,
        ),
{
    let applied = pivot_updated(m, sheet, id, name, caption, reason);
    let tried = pivot_updated(engine::untold(m), sheet, id, name, caption, other);
    sheetops::lemma_nothing_told(m);
    if applied.1 is Ok {
        let x = applied.0.audit_events.last();
        let y = tried.0.audit_events.last();
        assert(applied.0.audit_events == m.audit_events.push(x));
        assert(recalc::told_since(m, applied.0) == seq![x]);
        assert(m.audit_events + seq![x] == m.audit_events.push(x));
        assert(tried.0.audit_events == seq![y]);
        let trial = other + ":target="@ + risk_object(m, sheet, id).target_path;
        let carried_out = reason + ":target="@ + risk_object(m, sheet, id).target_path;
        assert(x == recalc::relabelled(y, trial, carried_out));
    }
}

/// Trying out another embedded object comes to the same as replacing it.
pub proof fn law_preview_tells_what_replacing_an_embedded_object_does(
    m: EngineModel,
    sheet: Seq<char>,
    id: Seq<char>,
    path: Seq<char>,
    bytes: Fallible<Seq<u8>>,
    reason: Seq<char>,
    other: Seq<char>,
)
    ensures
        sheetops::tells_the_same(
            m,
            ole_replaced(m, sheet, id, path, bytes, reason),
            ole_replaced(engine::untold(m), sheet, id, path, bytes, other),
            other + ":bytes="@ + text::decimal(byte_count(bytes->Ok_0) as nat),
            reason + ":bytes="@ + text::decimal(byte_count(bytes->Ok_0) as nat),
        ),
{
    let applied = ole_replaced(m, sheet, id, path, bytes, reason);
    let tried = ole_replaced(engine::untold(m), sheet, id, path, bytes, other);
    sheetops::lemma_nothing_told(m);
    if applied.1 is Ok {
        let x = applied.0.audit_events.last();
        let y = tried.0.audit_events.last();
        assert(applied.0.audit_events == m.audit_events.push(x));
        assert(recalc::told_since(m, applied.0) == seq![x]);
        assert(m.audit_events + seq![x] == m.audit_events.push(x));
        assert(tried.0.audit_events == seq![y]);
        let trial = other + ":bytes="@ + text::decimal(byte_count(bytes->Ok_0) as nat);
        let carried_out = reason + ":bytes="@ + text::decimal(byte_count(bytes->Ok_0) as nat);
        assert(x == recalc::relabelled(y, trial, carried_out));
    }
}

/// Trying out a comment comes to the same as setting it.
pub proof fn law_preview_tells_what_a_comment_does(
    m: EngineModel,
    sheet: Seq<char>,
    row: usize,
    col: usize,
    value: Seq<char>,
    remove: bool,
    reason: Seq<char>,
    other: Seq<char>,
)
    ensures
        sheetops::tells_the_same(
            m,
            comment_applied(m, sheet, row, col, value, remove, reason),
            comment_applied(engine::untold(m), sheet, row, col, value, remove, other),
            other,
            reason,
        ),
{
    let applied = comment_applied(m, sheet, row, col, value, remove, reason);
    let tried = comment_applied(engine::untold(m), sheet, row, col, value, remove, other);
    sheetops::lemma_nothing_told(m);
    if applied.1 is Ok {
        let x = applied.0.audit_events.last();
        let y = tried.0.audit_events.last();
        assert(applied.0.audit_events == m.audit_events.push(x));
        assert(recalc::told_since(m, applied.0) == seq![x]);
        assert(m.audit_events + seq![x] == m.audit_events.push(x));
        assert(tried.0.audit_events == seq![y]);
        assert(x == recalc::relabelled(y, other, reason));
    }
}

/// Trying out a validation comes to the same as setting it.
pub proof fn law_preview_tells_what_a_validation_does(
    m: EngineModel,
    sheet: Seq<char>,
    start_row: usize,
    start_col: usize,
    end_row: usize,
    end_col: usize,
    fields: FieldsModel,
    reason: Seq<char>,
    other: Seq<char>,
)
    ensures
        sheetops::tells_the_same(
            m,
            validation_applied(m, sheet, start_row, start_col, end_row, end_col, fields, reason),
            validation_applied(engine::untold(m), sheet, start_row, start_col, end_row, end_col, fields, other),
            other,
            reason,
        ),
{
    let applied = validation_applied(m, sheet, start_row, start_col, end_row, end_col, fields, reason);
    let tried = validation_applied(engine::untold(m), sheet, start_row, start_col, end_row, end_col, fields, other);
    sheetops::lemma_nothing_told(m);
    if applied.1 is Ok {
        let x = applied.0.audit_events.last();
        let y = tried.0.audit_events.last();
        assert(applied.0.audit_events == m.audit_events.push(x));
        assert(recalc::told_since(m, applied.0) == seq![x]);
        assert(m.audit_events + seq![x] == m.audit_events.push(x));
        assert(tried.0.audit_events == seq![y]);
        assert(x == recalc::relabelled(y, other, reason));
    }
}

/// Trying out a filter comes to the same as setting it.
pub proof fn law_preview_tells_what_a_filter_does(
    m: EngineModel,
    sheet: Seq<char>,
    start_row: usize,
    start_col: usize,
    end_row: usize,
    end_col: usize,
    reason: Seq<char>,
    other: Seq<char>,
)
    ensures
        sheetops::tells_the_same(
            m,
            filter_applied(m, sheet, start_row, start_col, end_row, end_col, reason),
            filter_applied(engine::untold(m), sheet, start_row, start_col, end_row, end_col, other),
            other,
            reason,
        ),
{
    let applied = filter_applied(m, sheet, start_row, start_col, end_row, end_col, reason);
    let tried = filter_applied(engine::untold(m), sheet, start_row, start_col, end_row, end_col, other);
    sheetops::lemma_nothing_told(m);
    if applied.1 is Ok {
        let x = applied.0.audit_events.last();
        let y = tried.0.audit_events.last();
        assert(applied.0.audit_events == m.audit_events.push(x));
        assert(recalc::told_since(m, applied.0) == seq![x]);
        assert(m.audit_events + seq![x] == m.audit_events.push(x));
        assert(tried.0.audit_events == seq![y]);
        assert(x == recalc::relabelled(y, other, reason));
    }
}

/// Trying out a conditional format comes to the same as adding it.
pub proof fn law_preview_tells_what_a_conditional_format_does(
    m: EngineModel,
    sheet: Seq<char>,
    start_row: usize,
    start_col: usize,
    end_row: usize,
    end_col: usize,
    fields: FieldsModel,
    reason: Seq<char>,
    other: Seq<char>,
)
    ensures
        sheetops::tells_the_same(
            m,
            conditional_format_applied(m, sheet, start_row, start_col, end_row, end_col, fields, reason),
            conditional_format_applied(engine::untold(m), sheet, start_row, start_col, end_row, end_col, fields, other),
            other,
            reason,
        ),
{
    let applied = conditional_format_applied(m, sheet, start_row, start_col, end_row, end_col, fields, reason);
    let tried = conditional_format_applied(engine::untold(m), sheet, start_row, start_col, end_row, end_col, fields, other);
    sheetops::lemma_nothing_told(m);
    if applied.1 is Ok {
        let x = applied.0.audit_events.last();
        let y = tried.0.audit_events.last();
        assert(applied.0.audit_events == m.audit_events.push(x));
        assert(recalc::told_since(m, applied.0) == seq![x]);
        assert(m.audit_events + seq![x] == m.audit_events.push(x));
        assert(tried.0.audit_events == seq![y]);
        assert(x == recalc::relabelled(y, other, reason));
    }
}

// ----- Refusals -----

/// A request on an object or a rule that is refused changes nothing.
pub proof fn law_refused_requests_change_nothing(
    m: EngineModel,
    sheet: Seq<char>,
    id: Seq<char>,
    row: usize,
    col: usize,
    value: Seq<char>,
    bytes: Fallible<Seq<u8>>,
    name: Option<Seq<char>>,
    caption: Option<Seq<char>>,
    reason: Seq<char>,
)
    ensures
        drawing_moved(m, sheet, id, row, col, reason).1 is Err ==> drawing_moved(
            m,
            sheet,
            id,
            row,
            col,
            reason,
        ).0 == m,
        drawing_resized(m, sheet, id, row, col, reason).1 is Err ==> drawing_resized(
            m,
            sheet,
            id,
            row,
            col,
            reason,
        ).0 == m,
        image_replaced(m, sheet, id, value, bytes, reason).1 is Err ==> image_replaced(
            m,
            sheet,
            id,
            value,
            bytes,
            reason,
        ).0 == m,
        drawing_text_updated(m, sheet, id, value, reason).1 is Err ==> drawing_text_updated(
            m,
            sheet,
            id,
            value,
            reason,
        ).0 == m,
        chart_title_updated(m, sheet, id, value, reason).1 is Err ==> chart_title_updated(
            m,
            sheet,
            id,
            value,
            reason,
        ).0 == m,
        chart_source_updated(m, sheet, id, value, reason).1 is Err ==> chart_source_updated(
            m,
            sheet,
            id,
            value,
            reason,
        ).0 == m,
        sparkline_updated(m, sheet, id, value, reason).1 is Err ==> sparkline_updated(
            m,
            sheet,
            id,
            value,
            reason,
        ).0 == m,
        pivot_updated(m, sheet, id, name, caption, reason).1 is Err ==> pivot_updated(
            m,
            sheet,
            id,
            name,
            caption,
            reason,
        ).0 == m,
        ole_replaced(m, sheet, id, value, bytes, reason).1 is Err ==> ole_replaced(
            m,
            sheet,
            id,
            value,
            bytes,
            reason,
        ).0 == m,
{
}

/// A request on a comment or a rule that is refused changes nothing.
pub proof fn law_refused_rules_change_nothing(
    m: EngineModel,
    sheet: Seq<char>,
    start_row: usize,
    start_col: usize,
    end_row: usize,
    end_col: usize,
    value: Seq<char>,
    remove: bool,
    fields: FieldsModel,
    reason: Seq<char>,
)
    ensures
        ({
            let r = comment_applied(m, sheet, start_row, start_col, value, remove, reason);
            r.1 is Err ==> r.0 == m
        }),
        ({
            let r = validation_applied(
                m,
                sheet,
                start_row,
                start_col,
                end_row,
                end_col,
                fields,
                reason,
            );
            r.1 is Err ==> r.0 == m
        }),
        ({
            let r = filter_applied(m, sheet, start_row, start_col, end_row, end_col, reason);
            r.1 is Err ==> r.0 == m
        }),
        ({
            let r = conditional_format_applied(
                m,
                sheet,
                start_row,
                start_col,
                end_row,
                end_col,
                fields,
                reason,
            );
            r.1 is Err ==> r.0 == m
        }),
{
}

proof fn lemma_comment_found(
    s: Seq<CellComment<Seq<char>>>,
    k: Key<Seq<char>>,
    i: int,
)
    ensures
        comment_place(s, k, i) matches Some(j) ==> i <= j < s.len() && s[j].key == k && forall|
            a: int,
        |
            i <= a < j ==> (#[trigger] s[a]).key != k,
        comment_place(s, k, i) is None && i >= 0 ==> forall|a: int|
            i <= a < s.len() ==> (#[trigger] s[a]).key != k,
    decreases s.len() - i,
{
    if 0 <= i < s.len() {
        lemma_comment_found(s, k, i + 1);
    }
}

/// A comment that was set is the first comment of its cell.
pub proof fn law_set_comment_reads_back(
    m: EngineModel,
    sheet: Seq<char>,
    row: usize,
    col: usize,
    value: Seq<char>,
    reason: Seq<char>,
)
    requires
        comment_applied(m, sheet, row, col, value, false, reason).1 is Ok,
    ensures
        ({
            let after = comment_applied(m, sheet, row, col, value, false, reason).0.comments;
            comment_place(after, coord::key(sheet, row, col), 0) matches Some(i)
                && after[i].text == value
        }),
{
    let k = coord::key(sheet, row, col);
    let after = comment_applied(m, sheet, row, col, value, false, reason).0.comments;
    lemma_comment_found(m.comments, k, 0);
    lemma_comment_found(after, k, 0);
    match comment_place(m.comments, k, 0) {
        Some(i) => {
            assert(after[i].key == k);
            let j = comment_place(after, k, 0)->Some_0;
            if j < i {
                assert(m.comments[j].key == after[j].key);
            }
        },
        None => {
            let n = m.comments.len() as int;
            assert(after[n].key == k);
            let j = comment_place(after, k, 0)->Some_0;
            if j < n {
                assert(m.comments[j].key == after[j].key);
            }
        },
    }
}

proof fn lemma_comments_gone(s: Seq<CellComment<Seq<char>>>, k: Key<Seq<char>>, i: int)
    requires
        0 <= i < comments_without(s, k).len(),
    ensures
        comments_without(s, k)[i].key != k,
    decreases s.len(),
{
    if s.len() > 0 {
        let rest = comments_without(s.drop_last(), k);
        if i < rest.len() {
            lemma_comments_gone(s.drop_last(), k, i);
        }
    }
}

/// A cell whose comment was removed has none.
pub proof fn law_removed_comment_is_gone(
    m: EngineModel,
    sheet: Seq<char>,
    row: usize,
    col: usize,
    reason: Seq<char>,
)
    requires
        engine::target_refusal(m, sheet, row, col) is None,
    ensures
        comment_place(
            comment_applied(m, sheet, row, col, ""@, true, reason).0.comments,
            coord::key(sheet, row, col),
            0,
        ) is None,
{
    let k = coord::key(sheet, row, col);
    let after = comments_without(m.comments, k);
    lemma_comment_found(after, k, 0);
    if comment_place(after, k, 0) is Some {
        lemma_comments_gone(m.comments, k, comment_place(after, k, 0)->Some_0);
    }
}

} // verus!
