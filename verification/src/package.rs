//! The parts of a workbook package: paths, relationships, shared strings, styles, sheets and
//! names.

use crate::coord::ShadowError;
use crate::entries;
use crate::records::{DefinedName, PackageRelationship, SheetInfo};
use crate::text;
use crate::xml;
use crate::xml::{NodeModel, Nodes, XmlNode};
use vstd::prelude::*;
use vstd::string::*;

verus! {

// ----- Parts -----

/// A part of a package: its text, or why it has none, and its size.
#[verifier::ext_equal]
pub struct Part<S = String> {
    pub text: Result<S, S>,
    pub size: u64,
}

impl DeepView for Part<String> {
    type V = Part<Seq<char>>;

    open spec fn deep_view(&self) -> Part<Seq<char>> {
        Part {
            text: match self.text {
                Ok(t) => Ok(t@),
                Err(m) => Err(m@),
            },
            size: self.size,
        }
    }
}

pub type Package = Vec<(String, Part)>;

pub type PackageModel = Seq<(Seq<char>, Part<Seq<char>>)>;

/// The text of a part.
pub open spec fn part_text(p: PackageModel, name: Seq<char>) -> Result<Seq<char>, Seq<char>> {
    match entries::get(p, name) {
        Some(part) => part.text,
        None => Err("specified file not found in archive"@),
    }
}

pub open spec fn text_view(r: Result<String, String>) -> Result<Seq<char>, Seq<char>> {
    match r {
        Ok(t) => Ok(t@),
        Err(m) => Err(m@),
    }
}

pub fn read_part(p: &Package, name: &str) -> (r: Result<String, String>)
    ensures
        text_view(r) == part_text(p.deep_view(), name@),
{
    match entries::map_get(p, &name.to_owned()) {
        Some(part) => match &part.text {
            Ok(t) => Ok(t.clone()),
            Err(m) => Err(m.clone()),
        },
        None => Err("specified file not found in archive".to_owned()),
    }
}

pub open spec fn has_part(p: PackageModel, name: Seq<char>) -> bool {
    entries::get(p, name) is Some
}

pub fn part_exists(p: &Package, name: &str) -> (r: bool)
    ensures
        r == has_part(p.deep_view(), name@),
{
    entries::map_has(p, &name.to_owned())
}

pub open spec fn size_of(p: PackageModel, name: Seq<char>) -> u64 {
    match entries::get(p, name) {
        Some(part) => part.size,
        None => 0,
    }
}

pub fn part_size(p: &Package, name: &str) -> (r: u64)
    ensures
        r == size_of(p.deep_view(), name@),
{
    match entries::map_get(p, &name.to_owned()) {
        Some(part) => part.size,
        None => 0,
    }
}

pub type Fallible<T> = Result<T, ShadowError<Seq<char>>>;

/// The nodes of a document, or the error by which it is refused.
pub open spec fn nodes_of(s: Seq<char>) -> Fallible<Nodes> {
    match xml::document(s) {
        Ok(nodes) => Ok(nodes),
        Err(m) => Err(ShadowError::Runtime(m)),
    }
}

pub open spec fn nodes_view(r: Result<Vec<XmlNode>, ShadowError>) -> Fallible<Nodes> {
    match r {
        Ok(nodes) => Ok(nodes.deep_view()),
        Err(e) => Err(e.deep_view()),
    }
}

pub fn read_nodes(s: &str) -> (r: Result<Vec<XmlNode>, ShadowError>)
    ensures
        nodes_view(r) == nodes_of(s@),
        nodes_of(s@) matches Ok(nodes) ==> xml::within(nodes, s@),
{
    match xml::parse(s) {
        Ok(nodes) => Ok(nodes),
        Err(m) => Err(ShadowError::Runtime(m)),
    }
}

/// The text of a part that the package must have.
pub open spec fn needed_text(p: PackageModel, name: Seq<char>) -> Fallible<Seq<char>> {
    match part_text(p, name) {
        Ok(t) => Ok(t),
        Err(m) => Err(ShadowError::Runtime(m)),
    }
}

pub fn read_needed(p: &Package, name: &str) -> (r: Result<String, ShadowError>)
    ensures
        crate::coord::outcome(r) == needed_text(p.deep_view(), name@),
{
    match read_part(p, name) {
        Ok(t) => Ok(t),
        Err(m) => Err(ShadowError::Runtime(m)),
    }
}

// ----- Paths -----

/// The path of the part that holds the relationships of a part.
pub open spec fn rels_path(part: Seq<char>) -> Seq<char> {
    match text::rcut(part, "/"@) {
        Some((dir, file)) => dir + "/_rels/"@ + file + ".rels"@,
        None => "_rels/"@ + part + ".rels"@,
    }
}

pub fn rels_path_for_part(part_path: &str) -> (r: String)
    ensures
        r@ == rels_path(part_path@),
{
    match text::rsplit_once(part_path, "/") {
        Some((dir, file)) => {
            let mut out = dir;
            out.append("/_rels/");
            out.append(&file);
            out.append(".rels");
            out
        },
        None => {
            let mut out = "_rels/".to_owned();
            out.append(part_path);
            out.append(".rels");
            out
        },
    }
}

/// The segments of a path after `.` and `..` have been followed; `..` at the top stays there.
pub open spec fn segments(parts: Seq<Seq<char>>) -> Seq<Seq<char>>
    decreases parts.len(),
{
    if parts.len() == 0 {
        parts
    } else {
        let done = segments(parts.drop_last());
        let part = parts.last();
        if part == ""@ || part == "."@ {
            done
        } else if part == ".."@ {
            if done.len() > 0 {
                done.drop_last()
            } else {
                done
            }
        } else {
            done.push(part)
        }
    }
}

pub open spec fn path_normalized(path: Seq<char>) -> Seq<char> {
    text::joined(segments(text::split(path, '/')), "/"@)
}

pub fn normalize_path_segments(path: &str) -> (r: String)
    ensures
        r@ == path_normalized(path@),
{
    let parts = text::split_at_char(path, '/');
    let ghost all = parts.deep_view();
    let mut out: Vec<String> = Vec::new();
    let mut i: usize = 0;
    assert(all.take(0) == Seq::<Seq<char>>::empty());
    assert(out.deep_view() == Seq::<Seq<char>>::empty());
    while i < parts.len()
        invariant
            i <= parts.len(),
            all == parts.deep_view(),
            out.deep_view() == segments(all.take(i as int)),
        decreases parts.len() - i,
    {
        assert(all.take(i + 1).drop_last() == all.take(i as int));
        assert(all.take(i + 1).last() == parts@[i as int]@);
        let ghost done = out.deep_view();
        let part = &parts[i];
        if text::same(part, "") || text::same(part, ".") {
        } else if text::same(part, "..") {
            if out.len() > 0 {
                let _gone = out.pop();
                assert(out.deep_view() == done.drop_last());
            }
        } else {
            out.push(part.clone());
            assert(out.deep_view() == done.push(part@));
        }
        i = i + 1;
    }
    assert(all.take(all.len() as int) == all);
    text::join(&out, "/")
}

/// The path of the part that a relationship of `base` points to.
pub open spec fn target_path(base: Seq<char>, target: Seq<char>) -> Seq<char> {
    let t = text::drop_leading(target, '/');
    if text::starts(t, "xl/"@) {
        t
    } else {
        path_normalized(
            (match text::rcut(base, "/"@) {
                Some((dir, _)) => dir,
                None => Seq::empty(),
            }) + "/"@ + t,
        )
    }
}

pub fn normalize_part_target(base_part: &str, target: &str) -> (r: String)
    ensures
        r@ == target_path(base_part@, target@),
{
    let t = text::without_leading(target, '/');
    if text::starts_with(&t, "xl/") {
        return t;
    }
    let mut path = match text::rsplit_once(base_part, "/") {
        Some((dir, _)) => dir,
        None => String::new(),
    };
    path.append("/");
    path.append(&t);
    normalize_path_segments(&path)
}

pub open spec fn sheet_path(target: Seq<char>) -> Seq<char> {
    let t = text::drop_leading(target, '/');
    if text::starts(t, "xl/"@) {
        t
    } else {
        "xl/"@ + t
    }
}

pub fn normalize_sheet_path(target: &str) -> (r: String)
    ensures
        r@ == sheet_path(target@),
{
    let t = text::without_leading(target, '/');
    if text::starts_with(&t, "xl/") {
        t
    } else {
        let mut out = "xl/".to_owned();
        out.append(&t);
        out
    }
}

/// The last segment of a path.
pub open spec fn file_name(path: Seq<char>) -> Seq<char> {
    match text::rcut(path, "/"@) {
        Some((_, file)) => file,
        None => path,
    }
}

fn file_name_of(path: &str) -> (r: String)
    ensures
        r@ == file_name(path@),
{
    match text::rsplit_once(path, "/") {
        Some((_, file)) => file,
        None => path.to_owned(),
    }
}

pub open spec fn file_stem(path: Seq<char>) -> Seq<char> {
    match text::rcut(file_name(path), "."@) {
        Some((stem, _)) => stem,
        None => file_name(path),
    }
}

pub fn file_stem_from_path(path: &str) -> (r: String)
    ensures
        r@ == file_stem(path@),
{
    let file = file_name_of(path);
    match text::rsplit_once(&file, ".") {
        Some((stem, _)) => stem,
        None => file,
    }
}

pub open spec fn file_extension(path: Seq<char>) -> Seq<char> {
    match text::rcut(file_name(path), "."@) {
        Some((_, extension)) => extension,
        None => Seq::empty(),
    }
}

pub fn file_extension_from_path(path: &str) -> (r: String)
    ensures
        r@ == file_extension(path@),
{
    match text::rsplit_once(&file_name_of(path), ".") {
        Some((_, extension)) => extension,
        None => String::new(),
    }
}

pub open spec fn is_true(value: Seq<char>) -> bool {
    value == "1"@ || text::like(value, "true"@)
}

pub fn xml_bool_attr_is_true(value: &str) -> (r: bool)
    ensures
        r == is_true(value@),
{
    text::same(value, "1") || text::eq_nocase(value, "true")
}

// ----- Relationships -----

pub open spec fn is_external(mode: Seq<char>) -> bool {
    text::like(mode, "External"@)
}

pub fn external(mode: &str) -> (r: bool)
    ensures
        r == is_external(mode@),
{
    text::eq_nocase(mode, "External")
}

pub open spec fn relationship(n: NodeModel, base: Seq<char>) -> Option<
    PackageRelationship<Seq<char>>,
> {
    match xml::attr(n, "Id"@) {
        Some(id) => {
            let target = xml::attr_or_empty(n, "Target"@);
            let mode = xml::attr_or_empty(n, "TargetMode"@);
            Some(
                PackageRelationship {
                    id,
                    rel_type: xml::attr_or_empty(n, "Type"@),
                    target: if is_external(mode) {
                        target
                    } else {
                        target_path(base, target)
                    },
                    target_mode: mode,
                },
            )
        },
        None => None,
    }
}

/// The relationships of the part `base`, each with the path of its target.
pub open spec fn relationships(nodes: Nodes, list: Seq<int>, base: Seq<char>) -> Seq<
    PackageRelationship<Seq<char>>,
>
    decreases list.len(),
{
    if list.len() == 0 {
        Seq::empty()
    } else {
        crate::objects::pushed(
            relationships(nodes, list.drop_last(), base),
            relationship(nodes[list.last()], base),
        )
    }
}

pub open spec fn relationships_in(s: Seq<char>, base: Seq<char>) -> Fallible<
    Seq<PackageRelationship<Seq<char>>>,
> {
    match nodes_of(s) {
        Ok(nodes) => Ok(relationships(nodes, xml::named(nodes, "Relationship"@), base)),
        Err(e) => Err(e),
    }
}

fn relationship_of(n: &XmlNode, base: &str) -> (r: Option<PackageRelationship>)
    ensures
        r.deep_view() == relationship(n.deep_view(), base@),
{
    let id = match xml::attribute(n, "Id") {
        Some(id) => id,
        None => return None,
    };
    let target = xml::attribute_or_empty(n, "Target");
    let mode = xml::attribute_or_empty(n, "TargetMode");
    let target = if external(&mode) {
        target
    } else {
        normalize_part_target(base, &target)
    };
    Some(
        PackageRelationship {
            id,
            rel_type: xml::attribute_or_empty(n, "Type"),
            target,
            target_mode: mode,
        },
    )
}

/// The relationships of a document of relationships.
pub fn relationships_of(nodes: &Vec<XmlNode>, base: &str) -> (r: Vec<PackageRelationship>)
    ensures
        r.deep_view() == relationships(
            nodes.deep_view(),
            xml::named(nodes.deep_view(), "Relationship"@),
            base@,
        ),
{
    let ghost all = nodes.deep_view();
    let list = xml::all_named(nodes, "Relationship");
    let ghost model = xml::ints(list@);
    let mut out: Vec<PackageRelationship> = Vec::new();
    assert(out.deep_view() == Seq::<PackageRelationship<Seq<char>>>::empty());
    let mut i: usize = 0;
    while i < list.len()
        invariant
            i <= list.len(),
            all == nodes.deep_view(),
            model == xml::ints(list@),
            forall|k: int| 0 <= k < list@.len() ==> #[trigger] list@[k] < nodes.len(),
            out.deep_view() == relationships(all, model.take(i as int), base@),
        decreases list.len() - i,
    {
        let at = list[i];
        assert(model.take(i + 1).drop_last() == model.take(i as int));
        assert(all[at as int] == nodes@[at as int].deep_view());
        crate::objects::push_some(&mut out, relationship_of(&nodes[at], base));
        i = i + 1;
    }
    assert(model.take(model.len() as int) == model);
    out
}

pub open spec fn rels_view(r: Result<Vec<PackageRelationship>, ShadowError>) -> Fallible<
    Seq<PackageRelationship<Seq<char>>>,
> {
    match r {
        Ok(v) => Ok(v.deep_view()),
        Err(e) => Err(e.deep_view()),
    }
}

pub fn parse_relationships_xml(s: &str, base_part: &str) -> (r: Result<
    Vec<PackageRelationship>,
    ShadowError,
>)
    ensures
        rels_view(r) == relationships_in(s@, base_part@),
{
    match read_nodes(s) {
        Ok(nodes) => Ok(relationships_of(&nodes, base_part)),
        Err(e) => Err(e),
    }
}

// ----- Shared strings and styles -----

/// The shared strings: for each `si` the texts of its `t` put together.
pub open spec fn shared_texts(nodes: Nodes, list: Seq<int>) -> Seq<Seq<char>> {
    Seq::new(
        list.len(),
        |i: int| xml::texts_joined(nodes, xml::named_in(nodes, list[i], "t"@)),
    )
}

pub fn shared_strings_of(nodes: &Vec<XmlNode>) -> (r: Vec<String>)
    ensures
        r.deep_view() == shared_texts(
            nodes.deep_view(),
            xml::named(nodes.deep_view(), "si"@),
        ),
{
    let ghost all = nodes.deep_view();
    let list = xml::all_named(nodes, "si");
    let ghost model = xml::ints(list@);
    let ghost expected = shared_texts(all, model);
    let mut out: Vec<String> = Vec::new();
    let mut i: usize = 0;
    assert(out.deep_view() == expected.take(0));
    while i < list.len()
        invariant
            i <= list.len(),
            all == nodes.deep_view(),
            model == xml::ints(list@),
            expected == shared_texts(all, model),
            forall|k: int| 0 <= k < list@.len() ==> #[trigger] list@[k] < nodes.len(),
            out.deep_view() == expected.take(i as int),
        decreases list.len() - i,
    {
        let at = list[i];
        assert(model[i as int] == at as int);
        let ghost done = out.deep_view();
        let value = xml::join_texts_in(nodes, at, "t");
        out.push(value);
        assert(out.deep_view() == done.push(value@));
        assert(expected.take(i + 1) == expected.take(i as int).push(expected[i as int]));
        i = i + 1;
    }
    assert(expected.take(expected.len() as int) == expected);
    out
}

pub open spec fn texts_view(r: Result<Vec<String>, ShadowError>) -> Fallible<Seq<Seq<char>>> {
    match r {
        Ok(v) => Ok(v.deep_view()),
        Err(e) => Err(e.deep_view()),
    }
}

/// The shared strings of a package; none where it has no such part.
pub open spec fn shared_strings(p: PackageModel) -> Fallible<Seq<Seq<char>>> {
    match part_text(p, "xl/sharedStrings.xml"@) {
        Ok(s) => match nodes_of(s) {
            Ok(nodes) => Ok(shared_texts(nodes, xml::named(nodes, "si"@))),
            Err(e) => Err(e),
        },
        Err(_) => Ok(Seq::empty()),
    }
}

pub fn read_shared_strings(p: &Package) -> (r: Result<Vec<String>, ShadowError>)
    ensures
        texts_view(r) == shared_strings(p.deep_view()),
{
    let s = match read_part(p, "xl/sharedStrings.xml") {
        Ok(s) => s,
        Err(_) => {
            let none: Vec<String> = Vec::new();
            assert(none.deep_view() == Seq::<Seq<char>>::empty());
            return Ok(none);
        },
    };
    match read_nodes(&s) {
        Ok(nodes) => Ok(shared_strings_of(&nodes)),
        Err(e) => Err(e),
    }
}

pub open spec fn as_u32(s: Option<Seq<char>>) -> Option<u32> {
    match s {
        Some(t) => match text::parsed(t, u32::MAX as nat) {
            Some(n) => Some(n as u32),
            None => None,
        },
        None => None,
    }
}

pub fn attr_u32(n: &XmlNode, name: &str) -> (r: Option<u32>)
    ensures
        r == as_u32(xml::attr(n.deep_view(), name@)),
{
    match xml::attribute(n, name) {
        Some(t) => match text::parse_bounded(&t, u32::MAX as u64) {
            Some(v) => Some(v as u32),
            None => None,
        },
        None => None,
    }
}

/// The number formats that the styles define, by number.
pub open spec fn custom_formats(nodes: Nodes, list: Seq<int>) -> Seq<(u32, Seq<char>)>
    decreases list.len(),
{
    if list.len() == 0 {
        Seq::empty()
    } else {
        let n = nodes[list.last()];
        let done = custom_formats(nodes, list.drop_last());
        match (as_u32(xml::attr(n, "numFmtId"@)), xml::attr(n, "formatCode"@)) {
            (Some(id), Some(code)) => entries::put(done, id, code),
            _ => done,
        }
    }
}

fn custom_formats_of(nodes: &Vec<XmlNode>) -> (r: Vec<(u32, String)>)
    ensures
        r.deep_view() == custom_formats(
            nodes.deep_view(),
            xml::named(nodes.deep_view(), "numFmt"@),
        ),
{
    let ghost all = nodes.deep_view();
    let list = xml::all_named(nodes, "numFmt");
    let ghost model = xml::ints(list@);
    let mut out: Vec<(u32, String)> = Vec::new();
    assert(out.deep_view() == Seq::<(u32, Seq<char>)>::empty());
    let mut i: usize = 0;
    while i < list.len()
        invariant
            i <= list.len(),
            all == nodes.deep_view(),
            model == xml::ints(list@),
            forall|k: int| 0 <= k < list@.len() ==> #[trigger] list@[k] < nodes.len(),
            out.deep_view() == custom_formats(all, model.take(i as int)),
        decreases list.len() - i,
    {
        let at = list[i];
        assert(model.take(i + 1).drop_last() == model.take(i as int));
        assert(all[at as int] == nodes@[at as int].deep_view());
        match (attr_u32(&nodes[at], "numFmtId"), xml::attribute(&nodes[at], "formatCode")) {
            (Some(id), Some(code)) => entries::map_put(&mut out, id, code),
            _ => {},
        }
        i = i + 1;
    }
    assert(model.take(model.len() as int) == model);
    out
}

/// The number formats that every workbook has.
pub open spec fn builtin_format(id: u32) -> Seq<char> {
    match id {
        0 => "General"@,
        1 => "0"@,
        2 => "0.00"@,
        3 => "#,##0"@,
        4 => "#,##0.00"@,
        9 => "0%"@,
        10 => "0.00%"@,
        11 => "0.00E+00"@,
        14 => "mm-dd-yy"@,
        15 => "d-mmm-yy"@,
        16 => "d-mmm"@,
        17 => "mmm-yy"@,
        18 => "h:mm AM/PM"@,
        19 => "h:mm:ss AM/PM"@,
        20 => "h:mm"@,
        21 => "h:mm:ss"@,
        22 => "m/d/yy h:mm"@,
        37 => "#,##0 ;(#,##0)"@,
        38 => "#,##0 ;[Red](#,##0)"@,
        39 => "#,##0.00;(#,##0.00)"@,
        40 => "#,##0.00;[Red](#,##0.00)"@,
        45 => "mm:ss"@,
        46 => "[h]:mm:ss"@,
        47 => "mmss.0"@,
        49 => "@"@,
        _ => ""@,
    }
}

pub fn builtin_number_format(id: u32) -> (r: &'static str)
    ensures
        r@ == builtin_format(id),
{
    match id {
        0 => "General",
        1 => "0",
        2 => "0.00",
        3 => "#,##0",
        4 => "#,##0.00",
        9 => "0%",
        10 => "0.00%",
        11 => "0.00E+00",
        14 => "mm-dd-yy",
        15 => "d-mmm-yy",
        16 => "d-mmm",
        17 => "mmm-yy",
        18 => "h:mm AM/PM",
        19 => "h:mm:ss AM/PM",
        20 => "h:mm",
        21 => "h:mm:ss",
        22 => "m/d/yy h:mm",
        37 => "#,##0 ;(#,##0)",
        38 => "#,##0 ;[Red](#,##0)",
        39 => "#,##0.00;(#,##0.00)",
        40 => "#,##0.00;[Red](#,##0.00)",
        45 => "mm:ss",
        46 => "[h]:mm:ss",
        47 => "mmss.0",
        49 => "@",
        _ => "",
    }
}

pub open spec fn format_named(formats: Seq<(u32, Seq<char>)>, id: Option<u32>) -> Seq<char> {
    match id {
        Some(n) => match entries::get(formats, n) {
            Some(code) => code,
            None => builtin_format(n),
        },
        None => Seq::empty(),
    }
}

/// The given nodes that have the given name.
pub open spec fn with_name(nodes: Nodes, list: Seq<int>, name: Seq<char>) -> Seq<int>
    decreases list.len(),
{
    if list.len() == 0 {
        list
    } else if nodes[list.last()].name == name {
        with_name(nodes, list.drop_last(), name).push(list.last())
    } else {
        with_name(nodes, list.drop_last(), name)
    }
}

/// The children of node `i` with the given name.
pub fn children_named(nodes: &Vec<XmlNode>, i: usize, name: &str) -> (r: Vec<usize>)
    requires
        i < nodes.len(),
    ensures
        xml::ints(r@) == with_name(
            nodes.deep_view(),
            xml::children(nodes.deep_view(), i as int),
            name@,
        ),
        forall|k: int| 0 <= k < r@.len() ==> i < #[trigger] r@[k] < nodes.len(),
{
    let ghost all = nodes.deep_view();
    let list = xml::children_of(nodes, i);
    let ghost model = xml::ints(list@);
    let mut out: Vec<usize> = Vec::new();
    let mut n: usize = 0;
    assert(xml::ints(out@) == Seq::<int>::empty());
    assert(model.take(0) == Seq::<int>::empty());
    while n < list.len()
        invariant
            n <= list.len(),
            all == nodes.deep_view(),
            model == xml::ints(list@),
            forall|k: int| 0 <= k < list@.len() ==> i < #[trigger] list@[k] < nodes.len(),
            xml::ints(out@) == with_name(all, model.take(n as int), name@),
            forall|k: int| 0 <= k < out@.len() ==> i < #[trigger] out@[k] < nodes.len(),
        decreases list.len() - n,
    {
        let at = list[n];
        assert(model.take(n + 1).drop_last() == model.take(n as int));
        assert(all[at as int] == nodes@[at as int].deep_view());
        if text::same(&nodes[at].name, name) {
            let ghost done = xml::ints(out@);
            out.push(at);
            assert(xml::ints(out@) == done.push(at as int));
        }
        n = n + 1;
    }
    assert(model.take(model.len() as int) == model);
    out
}

/// The number formats of the cell styles, in the order of the styles.
pub open spec fn style_formats(nodes: Nodes) -> Seq<Seq<char>> {
    let formats = custom_formats(nodes, xml::named(nodes, "numFmt"@));
    match xml::first_of(xml::named(nodes, "cellXfs"@)) {
        Some(k) => {
            let xfs = with_name(nodes, xml::children(nodes, k), "xf"@);
            Seq::new(
                xfs.len(),
                |i: int|
                    format_named(formats, as_u32(xml::attr(nodes[xfs[i]], "numFmtId"@))),
            )
        },
        None => Seq::empty(),
    }
}

pub fn style_formats_of(nodes: &Vec<XmlNode>) -> (r: Vec<String>)
    ensures
        r.deep_view() == style_formats(nodes.deep_view()),
{
    let ghost all = nodes.deep_view();
    let ghost expected = style_formats(all);
    let formats = custom_formats_of(nodes);
    let mut out: Vec<String> = Vec::new();
    let k = match xml::first_named(nodes, "cellXfs") {
        Some(k) => k,
        None => {
            assert(out.deep_view() == expected);
            return out;
        },
    };
    let xfs = children_named(nodes, k, "xf");
    let ghost model = xml::ints(xfs@);
    let mut i: usize = 0;
    assert(out.deep_view() == expected.take(0));
    while i < xfs.len()
        invariant
            i <= xfs.len(),
            all == nodes.deep_view(),
            model == xml::ints(xfs@),
            expected.len() == xfs.len(),
            forall|n: int|
                0 <= n < expected.len() ==> #[trigger] expected[n] == format_named(
                    formats.deep_view(),
                    as_u32(xml::attr(all[model[n]], "numFmtId"@)),
                ),
            forall|n: int| 0 <= n < xfs@.len() ==> k < #[trigger] xfs@[n] < nodes.len(),
            out.deep_view() == expected.take(i as int),
        decreases xfs.len() - i,
    {
        let at = xfs[i];
        assert(model[i as int] == at as int);
        assert(all[at as int] == nodes@[at as int].deep_view());
        let value = match attr_u32(&nodes[at], "numFmtId") {
            Some(id) => match entries::map_get(&formats, &id) {
                Some(code) => code.clone(),
                None => builtin_number_format(id).to_owned(),
            },
            None => String::new(),
        };
        let ghost done = out.deep_view();
        out.push(value);
        assert(out.deep_view() == done.push(value@));
        assert(expected.take(i + 1) == expected.take(i as int).push(expected[i as int]));
        i = i + 1;
    }
    assert(expected.take(expected.len() as int) == expected);
    out
}

/// The number formats of a package's cell styles; none where it has no such part.
pub open spec fn style_info(p: PackageModel) -> Fallible<Seq<Seq<char>>> {
    match part_text(p, "xl/styles.xml"@) {
        Ok(s) => match nodes_of(s) {
            Ok(nodes) => Ok(style_formats(nodes)),
            Err(e) => Err(e),
        },
        Err(_) => Ok(Seq::empty()),
    }
}

pub fn read_style_info(p: &Package) -> (r: Result<Vec<String>, ShadowError>)
    ensures
        texts_view(r) == style_info(p.deep_view()),
{
    let s = match read_part(p, "xl/styles.xml") {
        Ok(s) => s,
        Err(_) => {
            let none: Vec<String> = Vec::new();
            assert(none.deep_view() == Seq::<Seq<char>>::empty());
            return Ok(none);
        },
    };
    match read_nodes(&s) {
        Ok(nodes) => Ok(style_formats_of(&nodes)),
        Err(e) => Err(e),
    }
}

// ----- Sheets and names -----

/// The value of the first attribute whose name ends with `id`, in whatever namespace.
pub open spec fn id_value_from(a: Seq<xml::XmlAttribute<Seq<char>>>, i: int) -> Option<Seq<char>>
    decreases a.len() - i,
{
    if i < 0 || i >= a.len() {
        None
    } else if text::ends(a[i].name, "id"@) {
        Some(a[i].value)
    } else {
        id_value_from(a, i + 1)
    }
}

pub fn id_attribute(n: &XmlNode) -> (r: Option<String>)
    ensures
        r.deep_view() == id_value_from(n.deep_view().attributes, 0),
{
    let ghost all = n.attributes.deep_view();
    let mut i: usize = 0;
    while i < n.attributes.len()
        invariant
            i <= n.attributes.len(),
            all == n.attributes.deep_view(),
            id_value_from(all, 0) == id_value_from(all, i as int),
        decreases n.attributes.len() - i,
    {
        assert(all[i as int] == n.attributes@[i as int].deep_view());
        if text::ends_with(&n.attributes[i].name, "id") {
            return Some(n.attributes[i].value.clone());
        }
        i = i + 1;
    }
    None
}

pub open spec fn or_text(a: Option<Seq<char>>, other: Seq<char>) -> Seq<char> {
    match a {
        Some(t) => t,
        None => other,
    }
}

pub fn text_or(a: Option<String>, other: &str) -> (r: String)
    ensures
        r@ == or_text(a.deep_view(), other@),
{
    match a {
        Some(t) => t,
        None => other.to_owned(),
    }
}

/// The paths of the sheets by the ids of their relationships.
pub open spec fn sheet_paths(nodes: Nodes, list: Seq<int>) -> Seq<(Seq<char>, Seq<char>)>
    decreases list.len(),
{
    if list.len() == 0 {
        Seq::empty()
    } else {
        let n = nodes[list.last()];
        let done = sheet_paths(nodes, list.drop_last());
        match (xml::attr(n, "Id"@), xml::attr(n, "Target"@)) {
            (Some(id), Some(target)) => entries::put(done, id, sheet_path(target)),
            _ => done,
        }
    }
}

fn sheet_paths_of(nodes: &Vec<XmlNode>) -> (r: Vec<(String, String)>)
    ensures
        r.deep_view() == sheet_paths(
            nodes.deep_view(),
            xml::named(nodes.deep_view(), "Relationship"@),
        ),
{
    let ghost all = nodes.deep_view();
    let list = xml::all_named(nodes, "Relationship");
    let ghost model = xml::ints(list@);
    let mut out: Vec<(String, String)> = Vec::new();
    assert(out.deep_view() == Seq::<(Seq<char>, Seq<char>)>::empty());
    let mut i: usize = 0;
    while i < list.len()
        invariant
            i <= list.len(),
            all == nodes.deep_view(),
            model == xml::ints(list@),
            forall|k: int| 0 <= k < list@.len() ==> #[trigger] list@[k] < nodes.len(),
            out.deep_view() == sheet_paths(all, model.take(i as int)),
        decreases list.len() - i,
    {
        let at = list[i];
        assert(model.take(i + 1).drop_last() == model.take(i as int));
        assert(all[at as int] == nodes@[at as int].deep_view());
        match (xml::attribute(&nodes[at], "Id"), xml::attribute(&nodes[at], "Target")) {
            (Some(id), Some(target)) => entries::map_put(
                &mut out,
                id,
                normalize_sheet_path(&target),
            ),
            _ => {},
        }
        i = i + 1;
    }
    assert(model.take(model.len() as int) == model);
    out
}

/// A sheet of the workbook, where its relationship is known.
pub open spec fn sheet_info(n: NodeModel, paths: Seq<(Seq<char>, Seq<char>)>) -> Option<
    SheetInfo<Seq<char>>,
> {
    match id_value_from(n.attributes, 0) {
        Some(id) => match entries::get(paths, id) {
            Some(path) => Some(
                SheetInfo {
                    name: or_text(xml::attr(n, "name"@), "Sheet"@),
                    path,
                    sheet_id: xml::attr_or_empty(n, "sheetId"@),
                    rel_id: id,
                    visibility: or_text(xml::attr(n, "state"@), "visible"@),
                },
            ),
            None => None,
        },
        None => None,
    }
}

fn sheet_info_of(n: &XmlNode, paths: &Vec<(String, String)>) -> (r: Option<SheetInfo>)
    ensures
        r.deep_view() == sheet_info(n.deep_view(), paths.deep_view()),
{
    match id_attribute(n) {
        Some(id) => match entries::map_get(paths, &id) {
            Some(path) => Some(
                SheetInfo {
                    name: text_or(xml::attribute(n, "name"), "Sheet"),
                    path: path.clone(),
                    sheet_id: xml::attribute_or_empty(n, "sheetId"),
                    rel_id: id,
                    visibility: text_or(xml::attribute(n, "state"), "visible"),
                },
            ),
            None => None,
        },
        None => None,
    }
}

pub open spec fn sheet_infos(nodes: Nodes, list: Seq<int>, paths: Seq<(Seq<char>, Seq<char>)>) -> Seq<
    SheetInfo<Seq<char>>,
>
    decreases list.len(),
{
    if list.len() == 0 {
        Seq::empty()
    } else {
        crate::objects::pushed(
            sheet_infos(nodes, list.drop_last(), paths),
            sheet_info(nodes[list.last()], paths),
        )
    }
}

/// The sheets of a workbook, given its document and that of its relationships.
pub fn sheets_of(workbook: &Vec<XmlNode>, rels: &Vec<XmlNode>) -> (r: Vec<SheetInfo>)
    ensures
        r.deep_view() == sheet_infos(
            workbook.deep_view(),
            xml::named(workbook.deep_view(), "sheet"@),
            sheet_paths(rels.deep_view(), xml::named(rels.deep_view(), "Relationship"@)),
        ),
{
    let paths = sheet_paths_of(rels);
    let ghost all = workbook.deep_view();
    let list = xml::all_named(workbook, "sheet");
    let ghost model = xml::ints(list@);
    let mut out: Vec<SheetInfo> = Vec::new();
    assert(out.deep_view() == Seq::<SheetInfo<Seq<char>>>::empty());
    let mut i: usize = 0;
    while i < list.len()
        invariant
            i <= list.len(),
            all == workbook.deep_view(),
            model == xml::ints(list@),
            forall|k: int| 0 <= k < list@.len() ==> #[trigger] list@[k] < workbook.len(),
            out.deep_view() == sheet_infos(all, model.take(i as int), paths.deep_view()),
        decreases list.len() - i,
    {
        let at = list[i];
        assert(model.take(i + 1).drop_last() == model.take(i as int));
        assert(all[at as int] == workbook@[at as int].deep_view());
        crate::objects::push_some(&mut out, sheet_info_of(&workbook[at], &paths));
        i = i + 1;
    }
    assert(model.take(model.len() as int) == model);
    out
}

pub type SheetsModel = Seq<SheetInfo<Seq<char>>>;

pub open spec fn workbook_sheets(p: PackageModel) -> Fallible<SheetsModel> {
    match (
        needed_text(p, "xl/workbook.xml"@),
        needed_text(p, "xl/_rels/workbook.xml.rels"@),
    ) {
        (Err(e), _) => Err(e),
        (_, Err(e)) => Err(e),
        (Ok(w), Ok(r)) => match (nodes_of(w), nodes_of(r)) {
            (Err(e), _) => Err(e),
            (_, Err(e)) => Err(e),
            (Ok(workbook), Ok(rels)) => Ok(
                sheet_infos(
                    workbook,
                    xml::named(workbook, "sheet"@),
                    sheet_paths(rels, xml::named(rels, "Relationship"@)),
                ),
            ),
        },
    }
}

pub open spec fn sheets_view(r: Result<Vec<SheetInfo>, ShadowError>) -> Fallible<SheetsModel> {
    match r {
        Ok(v) => Ok(v.deep_view()),
        Err(e) => Err(e.deep_view()),
    }
}

pub fn read_workbook_sheets(p: &Package) -> (r: Result<Vec<SheetInfo>, ShadowError>)
    ensures
        sheets_view(r) == workbook_sheets(p.deep_view()),
{
    let w = match read_needed(p, "xl/workbook.xml") {
        Ok(w) => w,
        Err(e) => return Err(e),
    };
    let r = match read_needed(p, "xl/_rels/workbook.xml.rels") {
        Ok(r) => r,
        Err(e) => return Err(e),
    };
    let workbook = match read_nodes(&w) {
        Ok(nodes) => nodes,
        Err(e) => return Err(e),
    };
    match read_nodes(&r) {
        Ok(rels) => Ok(sheets_of(&workbook, &rels)),
        Err(e) => Err(e),
    }
}

/// A defined name, where it has a name and a target; its scope is the sheet of the given
/// number.
pub open spec fn defined_name(n: NodeModel, sheets: SheetsModel) -> Option<DefinedName<Seq<char>>> {
    let target = text::trim(xml::text_or_empty(n));
    match xml::attr(n, "name"@) {
        Some(name) => if text::trim(name).len() > 0 && target.len() > 0 {
            Some(
                DefinedName {
                    name,
                    target,
                    scope_sheet: match crate::deps::row_of(xml::attr(n, "localSheetId"@)) {
                        Some(i) => if i < sheets.len() {
                            Some(sheets[i as int].name)
                        } else {
                            None
                        },
                        None => None,
                    },
                },
            )
        } else {
            None
        },
        None => None,
    }
}

fn defined_name_of(n: &XmlNode, sheets: &Vec<SheetInfo>) -> (r: Option<DefinedName>)
    ensures
        r.deep_view() == defined_name(n.deep_view(), sheets.deep_view()),
{
    let name = match xml::attribute(n, "name") {
        Some(name) => name,
        None => return None,
    };
    let target = text::trimmed(&xml::node_text(n));
    if text::trimmed(&name).as_str().is_empty() || target.as_str().is_empty() {
        return None;
    }
    assert(sheets.deep_view().len() == sheets.len());
    let scope_sheet = match xml::attribute(n, "localSheetId") {
        Some(t) => match text::parse_size(&t) {
            Some(i) => if i < sheets.len() {
                assert(sheets.deep_view()[i as int] == sheets@[i as int].deep_view());
                Some(sheets[i].name.clone())
            } else {
                None
            },
            None => None,
        },
        None => None,
    };
    Some(DefinedName { name, target, scope_sheet })
}

pub open spec fn defined_names(nodes: Nodes, list: Seq<int>, sheets: SheetsModel) -> Seq<
    DefinedName<Seq<char>>,
>
    decreases list.len(),
{
    if list.len() == 0 {
        Seq::empty()
    } else {
        crate::objects::pushed(
            defined_names(nodes, list.drop_last(), sheets),
            defined_name(nodes[list.last()], sheets),
        )
    }
}

/// The defined names of a workbook's document.
pub fn defined_names_of(nodes: &Vec<XmlNode>, sheets: &Vec<SheetInfo>) -> (r: Vec<DefinedName>)
    ensures
        r.deep_view() == defined_names(
            nodes.deep_view(),
            xml::named(nodes.deep_view(), "definedName"@),
            sheets.deep_view(),
        ),
{
    let ghost all = nodes.deep_view();
    let list = xml::all_named(nodes, "definedName");
    let ghost model = xml::ints(list@);
    let mut out: Vec<DefinedName> = Vec::new();
    assert(out.deep_view() == Seq::<DefinedName<Seq<char>>>::empty());
    let mut i: usize = 0;
    while i < list.len()
        invariant
            i <= list.len(),
            all == nodes.deep_view(),
            model == xml::ints(list@),
            forall|k: int| 0 <= k < list@.len() ==> #[trigger] list@[k] < nodes.len(),
            out.deep_view() == defined_names(all, model.take(i as int), sheets.deep_view()),
        decreases list.len() - i,
    {
        let at = list[i];
        assert(model.take(i + 1).drop_last() == model.take(i as int));
        assert(all[at as int] == nodes@[at as int].deep_view());
        crate::objects::push_some(&mut out, defined_name_of(&nodes[at], sheets));
        i = i + 1;
    }
    assert(model.take(model.len() as int) == model);
    out
}

/// Those of the given elements that are read as defined names: with a name and a target.
pub open spec fn name_places(nodes: Nodes, list: Seq<int>) -> Seq<int>
    decreases list.len(),
{
    if list.len() == 0 {
        Seq::empty()
    } else if defined_name(nodes[list.last()], Seq::empty()) is Some {
        name_places(nodes, list.drop_last()).push(list.last())
    } else {
        name_places(nodes, list.drop_last())
    }
}

pub fn name_places_of(nodes: &Vec<XmlNode>, list: &Vec<usize>) -> (r: Vec<usize>)
    requires
        forall|k: int| 0 <= k < list@.len() ==> #[trigger] list@[k] < nodes.len(),
    ensures
        xml::ints(r@) == name_places(nodes.deep_view(), xml::ints(list@)),
        forall|k: int| 0 <= k < r@.len() ==> #[trigger] r@[k] < nodes.len(),
{
    let ghost all = nodes.deep_view();
    let ghost model = xml::ints(list@);
    let none: Vec<SheetInfo> = Vec::new();
    assert(none.deep_view() == SheetsModel::empty());
    let mut out: Vec<usize> = Vec::new();
    let mut i: usize = 0;
    assert(model.take(0) == Seq::<int>::empty());
    assert(xml::ints(out@) == Seq::<int>::empty());
    while i < list.len()
        invariant
            i <= list.len(),
            all == nodes.deep_view(),
            model == xml::ints(list@),
            none.deep_view() == SheetsModel::empty(),
            forall|k: int| 0 <= k < list@.len() ==> #[trigger] list@[k] < nodes.len(),
            forall|k: int| 0 <= k < out@.len() ==> #[trigger] out@[k] < nodes.len(),
            xml::ints(out@) == name_places(all, model.take(i as int)),
        decreases list.len() - i,
    {
        let at = list[i];
        assert(model.take(i + 1).drop_last() == model.take(i as int));
        assert(model.take(i + 1).last() == at as int);
        assert(all[at as int] == nodes@[at as int].deep_view());
        if defined_name_of(&nodes[at], &none).is_some() {
            let ghost before = out@;
            out.push(at);
            assert(xml::ints(out@) == xml::ints(before).push(at as int));
        }
        i = i + 1;
    }
    assert(model.take(model.len() as int) == model);
    out
}

/// The defined names that are read are those of these elements, in their order.
pub proof fn law_names_have_their_places(nodes: Nodes, list: Seq<int>, sheets: SheetsModel)
    ensures
        ({
            let names = defined_names(nodes, list, sheets);
            let places = name_places(nodes, list);
            &&& names.len() == places.len()
            &&& forall|i: int|
                0 <= i < names.len() ==> Some(#[trigger] names[i]) == defined_name(
                    nodes[places[i]],
                    sheets,
                )
        }),
    decreases list.len(),
{
    if list.len() > 0 {
        law_names_have_their_places(nodes, list.drop_last(), sheets);
        let n = nodes[list.last()];
        assert(defined_name(n, sheets) is Some <==> defined_name(n, Seq::empty()) is Some);
    }
}

pub open spec fn names_in(p: PackageModel, sheets: SheetsModel) -> Fallible<
    Seq<DefinedName<Seq<char>>>,
> {
    match needed_text(p, "xl/workbook.xml"@) {
        Ok(w) => match nodes_of(w) {
            Ok(nodes) => Ok(defined_names(nodes, xml::named(nodes, "definedName"@), sheets)),
            Err(e) => Err(e),
        },
        Err(e) => Err(e),
    }
}

pub open spec fn names_view(r: Result<Vec<DefinedName>, ShadowError>) -> Fallible<
    Seq<DefinedName<Seq<char>>>,
> {
    match r {
        Ok(v) => Ok(v.deep_view()),
        Err(e) => Err(e.deep_view()),
    }
}

pub fn read_defined_names(p: &Package, sheets: &Vec<SheetInfo>) -> (r: Result<
    Vec<DefinedName>,
    ShadowError,
>)
    ensures
        names_view(r) == names_in(p.deep_view(), sheets.deep_view()),
{
    let w = match read_needed(p, "xl/workbook.xml") {
        Ok(w) => w,
        Err(e) => return Err(e),
    };
    match read_nodes(&w) {
        Ok(nodes) => Ok(defined_names_of(&nodes, sheets)),
        Err(e) => Err(e),
    }
}

} // verus!
