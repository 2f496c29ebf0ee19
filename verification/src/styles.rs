//! Cell formats: what a format asks for, and how it is written into the styles of a
//! workbook.

use crate::coord;
use crate::coord::ShadowError;
use crate::diagnostics::{Fields, FieldsModel};
use crate::entries;
use crate::objects;
use crate::package;
use crate::package::Fallible;
use crate::pattern;
use crate::records::{CellFormatIntent, StylePatch};
use crate::splice;
use crate::text;
use crate::written;
use crate::xml;
use crate::xml::{Nodes, XmlNode};
use vstd::prelude::*;
use vstd::string::*;

verus! {

// ----- Reading what is asked for -----

/// The value of a field without the space around it, where anything is left.
pub open spec fn filled_field(fields: FieldsModel, name: Seq<char>) -> Option<Seq<char>> {
    match entries::get(fields, name) {
        Some(t) => if text::trim(t).len() == 0 {
            None
        } else {
            Some(text::trim(t))
        },
        None => None,
    }
}

pub fn optional_nonempty(values: &Fields, key: &str) -> (r: Option<String>)
    ensures
        r.deep_view() == filled_field(values.deep_view(), key@),
{
    match entries::map_get(values, &key.to_owned()) {
        Some(t) => {
            let value = text::trimmed(t);
            if value.as_str().is_empty() {
                None
            } else {
                Some(value)
            }
        },
        None => None,
    }
}

pub open spec fn is_yes(t: Seq<char>) -> bool {
    let low = text::lower(t);
    low == "true"@ || low == "1"@ || low == "yes"@
}

pub open spec fn is_no(t: Seq<char>) -> bool {
    let low = text::lower(t);
    low == "false"@ || low == "0"@ || low == "no"@
}

pub open spec fn bool_field(fields: FieldsModel, name: Seq<char>) -> Fallible<Option<bool>> {
    match filled_field(fields, name) {
        None => Ok(None),
        Some(t) => if is_yes(t) {
            Ok(Some(true))
        } else if is_no(t) {
            Ok(Some(false))
        } else {
            Err(coord::value_error("unsafe_update: "@ + name + " must be boolean"@))
        },
    }
}

pub open spec fn plain_view<T>(r: Result<T, ShadowError>) -> Fallible<T> {
    match r {
        Ok(v) => Ok(v),
        Err(e) => Err(e.deep_view()),
    }
}

pub open spec fn text_option_view(r: Result<Option<String>, ShadowError>) -> Fallible<
    Option<Seq<char>>,
> {
    match r {
        Ok(v) => Ok(v.deep_view()),
        Err(e) => Err(e.deep_view()),
    }
}

pub fn optional_bool(values: &Fields, key: &str) -> (r: Result<Option<bool>, ShadowError>)
    ensures
        plain_view(r) == bool_field(values.deep_view(), key@),
{
    match optional_nonempty(values, key) {
        None => Ok(None),
        Some(t) => {
            let low = text::to_lower(&t);
            if text::same(&low, "true") || text::same(&low, "1") || text::same(&low, "yes") {
                Ok(Some(true))
            } else if text::same(&low, "false") || text::same(&low, "0") || text::same(&low, "no") {
                Ok(Some(false))
            } else {
                let mut m = "unsafe_update: ".to_owned();
                m.append(key);
                m.append(" must be boolean");
                Err(ShadowError::Value(m))
            }
        },
    }
}

/// One of some words.
pub open spec fn choice_field(fields: FieldsModel, name: Seq<char>, options: Seq<Seq<char>>) -> Fallible<
    Option<Seq<char>>,
> {
    match filled_field(fields, name) {
        None => Ok(None),
        Some(t) => if options.contains(t) {
            Ok(Some(t))
        } else {
            Err(
                coord::value_error(
                    "unsafe_update: "@ + name + " must be one of "@ + text::joined(options, ", "@),
                ),
            )
        },
    }
}

pub fn optional_enum(values: &Fields, key: &str, allowed: &Vec<String>) -> (r: Result<
    Option<String>,
    ShadowError,
>)
    ensures
        text_option_view(r) == choice_field(values.deep_view(), key@, allowed.deep_view()),
{
    match optional_nonempty(values, key) {
        None => Ok(None),
        Some(t) => if entries::list_has(allowed, &t) {
            Ok(Some(t))
        } else {
            let mut m = "unsafe_update: ".to_owned();
            m.append(key);
            m.append(" must be one of ");
            m.append(&text::join(allowed, ", "));
            Err(ShadowError::Value(m))
        },
    }
}

pub open spec fn horizontal_words() -> Seq<Seq<char>> {
    seq!["left"@, "center"@, "right"@]
}

pub open spec fn vertical_words() -> Seq<Seq<char>> {
    seq!["top"@, "center"@, "bottom"@]
}

pub open spec fn all_hex(s: Seq<char>) -> bool {
    forall|i: int| 0 <= i < s.len() ==> text::is_hex(#[trigger] s[i])
}

fn is_all_hex(s: &Vec<char>) -> (r: bool)
    ensures
        r == all_hex(s@),
{
    let mut i: usize = 0;
    while i < s.len()
        invariant
            i <= s.len(),
            forall|k: int| 0 <= k < i ==> text::is_hex(#[trigger] s@[k]),
        decreases s.len() - i,
    {
        if !text::hex(s[i]) {
            return false;
        }
        i = i + 1;
    }
    true
}

/// A colour of six hexadecimal digits, in capitals and without `#`.
pub open spec fn color_field(fields: FieldsModel, name: Seq<char>) -> Fallible<Option<Seq<char>>> {
    match filled_field(fields, name) {
        None => Ok(None),
        Some(t) => {
            let color = text::upper(text::drop_leading(text::trim(t), '#'));
            if color.len() == 6 && all_hex(color) {
                Ok(Some(color))
            } else {
                Err(coord::value_error("unsafe_update: "@ + name + " must be a 6-digit hex color"@))
            }
        },
    }
}

pub fn optional_color(values: &Fields, key: &str) -> (r: Result<Option<String>, ShadowError>)
    ensures
        text_option_view(r) == color_field(values.deep_view(), key@),
{
    match optional_nonempty(values, key) {
        None => Ok(None),
        Some(t) => {
            let color = text::to_upper(&text::without_leading(&text::trimmed(&t), '#'));
            let all = text::chars_of(&color);
            if all.len() == 6 && is_all_hex(&all) {
                Ok(Some(color))
            } else {
                let mut m = "unsafe_update: ".to_owned();
                m.append(key);
                m.append(" must be a 6-digit hex color");
                Err(ShadowError::Value(m))
            }
        },
    }
}

pub type IntentModel = CellFormatIntent<Seq<char>>;

/// The format that a request asks for. Its fields are read in a fixed order, so that
/// the first bad one is the one reported.
pub open spec fn intent(fields: FieldsModel) -> Fallible<IntentModel> {
    match bool_field(fields, "bold"@) {
        Err(e) => Err(e),
        Ok(bold) => match bool_field(fields, "italic"@) {
            Err(e) => Err(e),
            Ok(italic) => match color_field(fields, "font_color"@) {
                Err(e) => Err(e),
                Ok(font_color) => match color_field(fields, "fill_color"@) {
                    Err(e) => Err(e),
                    Ok(fill_color) => match choice_field(
                        fields,
                        "horizontal"@,
                        horizontal_words(),
                    ) {
                        Err(e) => Err(e),
                        Ok(horizontal) => match choice_field(
                            fields,
                            "vertical"@,
                            vertical_words(),
                        ) {
                            Err(e) => Err(e),
                            Ok(vertical) => match bool_field(fields, "wrap_text"@) {
                                Err(e) => Err(e),
                                Ok(wrap_text) => Ok(
                                    CellFormatIntent {
                                        number_format: filled_field(fields, "number_format"@),
                                        bold,
                                        italic,
                                        font_color,
                                        fill_color,
                                        horizontal,
                                        vertical,
                                        wrap_text,
                                    },
                                ),
                            },
                        },
                    },
                },
            },
        },
    }
}

impl<S> CellFormatIntent<S> {
    pub open spec fn any(self) -> bool {
        self.number_format is Some || self.bold is Some || self.italic is Some || self.font_color
            is Some || self.fill_color is Some || self.horizontal is Some || self.vertical is Some
            || self.wrap_text is Some
    }

    pub open spec fn any_font(self) -> bool {
        self.bold is Some || self.italic is Some || self.font_color is Some
    }

    pub open spec fn any_alignment(self) -> bool {
        self.horizontal is Some || self.vertical is Some || self.wrap_text is Some
    }

    /// Whether the format asks for anything.
    pub fn has_changes(&self) -> (r: bool)
        ensures
            r == self.any(),
    {
        self.number_format.is_some() || self.bold.is_some() || self.italic.is_some()
            || self.font_color.is_some() || self.fill_color.is_some() || self.horizontal.is_some()
            || self.vertical.is_some() || self.wrap_text.is_some()
    }

    pub fn has_font_changes(&self) -> (r: bool)
        ensures
            r == self.any_font(),
    {
        self.bold.is_some() || self.italic.is_some() || self.font_color.is_some()
    }

    pub fn has_fill_changes(&self) -> (r: bool)
        ensures
            r == (self.fill_color is Some),
    {
        self.fill_color.is_some()
    }

    pub fn has_alignment_changes(&self) -> (r: bool)
        ensures
            r == self.any_alignment(),
    {
        self.horizontal.is_some() || self.vertical.is_some() || self.wrap_text.is_some()
    }
}

/// A named part of the account of a format, where it is asked for.
pub open spec fn told_text(name: Seq<char>, value: Option<Seq<char>>) -> Seq<char> {
    match value {
        Some(t) => ";"@ + name + "="@ + t,
        None => Seq::empty(),
    }
}

pub open spec fn told_bool(name: Seq<char>, value: Option<bool>) -> Seq<char> {
    match value {
        Some(b) => ";"@ + name + "="@ + (if b {
            "true"@
        } else {
            "false"@
        }),
        None => Seq::empty(),
    }
}

fn tell_text(out: &mut String, name: &str, value: &Option<String>)
    ensures
        final(out)@ == old(out)@ + told_text(name@, value.deep_view()),
{
    let ghost before = out@;
    assert(before + Seq::<char>::empty() == before);
    match value {
        Some(t) => {
            out.append(";");
            out.append(name);
            out.append("=");
            out.append(t);
            assert(out@ == before + (";"@ + name@ + "="@ + t@));
        },
        None => {},
    }
}

fn tell_bool(out: &mut String, name: &str, value: Option<bool>)
    ensures
        final(out)@ == old(out)@ + told_bool(name@, value),
{
    let ghost before = out@;
    assert(before + Seq::<char>::empty() == before);
    match value {
        Some(b) => {
            out.append(";");
            out.append(name);
            out.append("=");
            if b {
                out.append("true");
                assert(out@ == before + (";"@ + name@ + "="@ + "true"@));
            } else {
                out.append("false");
                assert(out@ == before + (";"@ + name@ + "="@ + "false"@));
            }
        },
        None => {},
    }
}

/// The account of a format in the audit trail.
pub open spec fn intent_account(i: IntentModel, style_id: u32, base_style_id: u32) -> Seq<char> {
    "style_id="@ + text::decimal(style_id as nat) + ";base_style_id="@ + text::decimal(
        base_style_id as nat,
    ) + told_text("number_format"@, i.number_format) + told_bool("bold"@, i.bold) + told_bool(
        "italic"@,
        i.italic,
    ) + told_text("font_color"@, i.font_color) + told_text("fill_color"@, i.fill_color) + told_text(
        "horizontal"@,
        i.horizontal,
    ) + told_text("vertical"@, i.vertical) + told_bool("wrap_text"@, i.wrap_text)
}

impl CellFormatIntent<String> {
    pub fn from_map(fields: &Fields) -> (r: Result<Self, ShadowError>)
        ensures
            coord::outcome(r) == intent(fields.deep_view()),
    {
        let number_format = optional_nonempty(fields, "number_format");
        let bold = match optional_bool(fields, "bold") {
            Ok(v) => v,
            Err(e) => return Err(e),
        };
        let italic = match optional_bool(fields, "italic") {
            Ok(v) => v,
            Err(e) => return Err(e),
        };
        let font_color = match optional_color(fields, "font_color") {
            Ok(v) => v,
            Err(e) => return Err(e),
        };
        let fill_color = match optional_color(fields, "fill_color") {
            Ok(v) => v,
            Err(e) => return Err(e),
        };
        let across: Vec<String> = vec!["left".to_owned(), "center".to_owned(), "right".to_owned()];
        let upright: Vec<String> = vec!["top".to_owned(), "center".to_owned(), "bottom".to_owned()];
        assert(across.deep_view() == horizontal_words());
        assert(upright.deep_view() == vertical_words());
        let horizontal = match optional_enum(fields, "horizontal", &across) {
            Ok(v) => v,
            Err(e) => return Err(e),
        };
        let vertical = match optional_enum(fields, "vertical", &upright) {
            Ok(v) => v,
            Err(e) => return Err(e),
        };
        let wrap_text = match optional_bool(fields, "wrap_text") {
            Ok(v) => v,
            Err(e) => return Err(e),
        };
        Ok(
            CellFormatIntent {
                number_format,
                bold,
                italic,
                font_color,
                fill_color,
                horizontal,
                vertical,
                wrap_text,
            },
        )
    }

    pub fn to_audit_string(&self, style_id: u32, base_style_id: u32) -> (r: String)
        ensures
            r@ == intent_account(self.deep_view(), style_id, base_style_id),
    {
        let mut out = "style_id=".to_owned();
        out.append(&text::number_text(style_id as u64));
        out.append(";base_style_id=");
        out.append(&text::number_text(base_style_id as u64));
        tell_text(&mut out, "number_format", &self.number_format);
        tell_bool(&mut out, "bold", self.bold);
        tell_bool(&mut out, "italic", self.italic);
        tell_text(&mut out, "font_color", &self.font_color);
        tell_text(&mut out, "fill_color", &self.fill_color);
        tell_text(&mut out, "horizontal", &self.horizontal);
        tell_text(&mut out, "vertical", &self.vertical);
        tell_bool(&mut out, "wrap_text", self.wrap_text);
        out
    }
}

// ----- Elements of a format -----

/// An element's tag from its bracket on: its name under the prefix of the document, and what
/// follows the name.
pub open spec fn tag(prefix: Seq<char>, rest: Seq<char>) -> Seq<char> {
    "<"@ + prefix + rest
}

fn tag_of(prefix: &str, rest: &str) -> (r: String)
    ensures
        r@ == tag(prefix@, rest@),
{
    let mut out = "<".to_owned();
    out.append(prefix);
    out.append(rest);
    out
}

pub open spec fn end_tag(prefix: Seq<char>, name: Seq<char>) -> Seq<char> {
    "</"@ + prefix + name + ">"@
}

fn end_tag_of(prefix: &str, name: &str) -> (r: String)
    ensures
        r@ == end_tag(prefix@, name@),
{
    let mut out = "</".to_owned();
    out.append(prefix);
    out.append(name);
    out.append(">");
    out
}

pub open spec fn font_element(prefix: Seq<char>, i: IntentModel) -> Seq<char> {
    tag(prefix, "font>"@) + (if i.italic == Some(true) {
        tag(prefix, "i />"@)
    } else {
        Seq::empty()
    }) + (if i.bold == Some(true) {
        tag(prefix, "b />"@)
    } else {
        Seq::empty()
    }) + tag(prefix, "sz val=\"11\" />"@) + tag(prefix, "name val=\"Carlito\" />"@) + (
    match i.font_color {
        Some(c) => tag(prefix, "color rgb=\"FF"@) + xml::escaped(c) + "\" />"@,
        None => Seq::empty(),
    }) + end_tag(prefix, "font"@)
}

pub fn format_font_xml(prefix: &str, i: &CellFormatIntent) -> (r: String)
    ensures
        r@ == font_element(prefix@, i.deep_view()),
{
    let mut out = tag_of(prefix, "font>");
    let italic = if i.italic == Some(true) {
        tag_of(prefix, "i />")
    } else {
        String::new()
    };
    out.append(&italic);
    let bold = if i.bold == Some(true) {
        tag_of(prefix, "b />")
    } else {
        String::new()
    };
    out.append(&bold);
    out.append(&tag_of(prefix, "sz val=\"11\" />"));
    out.append(&tag_of(prefix, "name val=\"Carlito\" />"));
    let color = match &i.font_color {
        Some(c) => {
            let mut t = tag_of(prefix, "color rgb=\"FF");
            t.append(&xml::xml_escape(c));
            t.append("\" />");
            t
        },
        None => String::new(),
    };
    out.append(&color);
    out.append(&end_tag_of(prefix, "font"));
    out
}

/// The names of the elements of a font.
proof fn lemma_font_names()
    ensures
        xml::plain_name("font"@),
        xml::plain_name("i"@),
        xml::plain_name("b"@),
        xml::plain_name("sz"@),
        xml::plain_name("name"@),
        xml::plain_name("color"@),
        "i"@ != "b"@,
        "i"@ != "font"@ && "i"@ != "sz"@ && "i"@ != "name"@ && "i"@ != "color"@,
        "b"@ != "font"@ && "b"@ != "sz"@ && "b"@ != "name"@ && "b"@ != "color"@,
        "color"@ != "font"@ && "color"@ != "sz"@ && "color"@ != "name"@,
{
    reveal_strlit("font");
    reveal_strlit("i");
    reveal_strlit("b");
    reveal_strlit("sz");
    reveal_strlit("name");
    reveal_strlit("color");
    assert("i"@[0] == 'i' && "b"@[0] == 'b');
    assert("i"@.len() == 1 && "b"@.len() == 1 && "sz"@.len() == 2 && "font"@.len() == 4 && "name"@.len()
        == 4 && "color"@.len() == 5);
}

/// A tag of a font without attributes that matter.
proof fn lemma_plain_tag(prefix: Seq<char>, name: Seq<char>, rest: Seq<char>)
    requires
        xml::plain_prefix(prefix),
        xml::plain_name(name),
        xml::tag_rest(rest),
    ensures
        xml::is_tag(tag(prefix, name + rest)),
        xml::tag_name(tag(prefix, name + rest)) == prefix + name,
        xml::tag_attrs(tag(prefix, name + rest)) == xml::attrs_in(rest),
{
    xml::lemma_put_together(prefix, name, rest);
    assert(tag(prefix, name + rest) == "<"@ + prefix + name + rest);
}

/// The tags of a font as it is written.
proof fn lemma_color_tag(prefix: Seq<char>, c: Seq<char>)
    requires
        xml::plain_prefix(prefix),
    ensures
        ({
            let t = tag(prefix, "color rgb=\"FF"@) + xml::escaped(c) + "\" />"@;
            &&& xml::is_tag(t)
            &&& xml::tag_name(t) == prefix + "color"@
            &&& xml::tag_attr(t, "rgb"@) == Some("FF"@ + c)
        }),
{
    lemma_font_names();
    lemma_color_words();
    assert(xml::escaped("FF"@ + c) == "FF"@ + xml::escaped(c)) by {
        reveal_strlit("FF");
        xml::lemma_escaped_behind_plain("FF"@, c);
    }
    written::lemma_led_attr_tag(prefix, "color"@, "rgb"@, "FF"@, c);
}

proof fn lemma_color_words()
    ensures
        "color rgb=\"FF"@ == "color"@ + (" "@ + "rgb"@ + "=\""@) + "FF"@,
        "\" />"@ == "\""@ + " />"@,
        xml::plain_name("rgb"@),
{
    reveal_strlit("color rgb=\"FF");
    reveal_strlit("color");
    reveal_strlit("rgb");
    reveal_strlit("FF");
    reveal_strlit(" ");
    reveal_strlit("=\"");
    reveal_strlit("\"");
    reveal_strlit(" />");
    reveal_strlit("\" />");
    assert("color rgb=\"FF"@ =~= "color"@ + (" "@ + "rgb"@ + "=\""@) + "FF"@);
    assert("\" />"@ =~= "\""@ + " />"@);
}

proof fn lemma_font_open(prefix: Seq<char>)
    requires
        xml::plain_prefix(prefix),
    ensures
        xml::is_tag(tag(prefix, "font>"@)),
        xml::tag_name(tag(prefix, "font>"@)) == prefix + "font"@,
        xml::is_tag(end_tag(prefix, "font"@)),
        xml::tag_name(end_tag(prefix, "font"@)) == Seq::<char>::empty(),
{
    lemma_font_names();
    reveal_strlit("font>");
    reveal_strlit("font");
    reveal_strlit(">");
    assert("font>"@ == "font"@ + ">"@);
    lemma_plain_tag(prefix, "font"@, ">"@);
    lemma_close(prefix, "font"@);
}

proof fn lemma_font_marks(prefix: Seq<char>)
    requires
        xml::plain_prefix(prefix),
    ensures
        xml::is_tag(tag(prefix, "i />"@)),
        xml::tag_name(tag(prefix, "i />"@)) == prefix + "i"@,
        xml::is_tag(tag(prefix, "b />"@)),
        xml::tag_name(tag(prefix, "b />"@)) == prefix + "b"@,
{
    lemma_font_names();
    reveal_strlit("i />");
    reveal_strlit("i");
    reveal_strlit("b />");
    reveal_strlit("b");
    reveal_strlit(" />");
    assert("i />"@ == "i"@ + " />"@);
    assert("b />"@ == "b"@ + " />"@);
    lemma_plain_tag(prefix, "i"@, " />"@);
    lemma_plain_tag(prefix, "b"@, " />"@);
}

proof fn lemma_font_size(prefix: Seq<char>)
    requires
        xml::plain_prefix(prefix),
    ensures
        xml::is_tag(tag(prefix, "sz val=\"11\" />"@)),
        xml::tag_name(tag(prefix, "sz val=\"11\" />"@)) == prefix + "sz"@,
{
    lemma_font_names();
    reveal_strlit("sz val=\"11\" />");
    reveal_strlit("sz");
    reveal_strlit(" val=\"11\" />");
    assert("sz val=\"11\" />"@ == "sz"@ + " val=\"11\" />"@);
    lemma_plain_tag(prefix, "sz"@, " val=\"11\" />"@);
}

proof fn lemma_font_face(prefix: Seq<char>)
    requires
        xml::plain_prefix(prefix),
    ensures
        xml::is_tag(tag(prefix, "name val=\"Carlito\" />"@)),
        xml::tag_name(tag(prefix, "name val=\"Carlito\" />"@)) == prefix + "name"@,
{
    lemma_font_names();
    reveal_strlit("name val=\"Carlito\" />");
    reveal_strlit("name");
    reveal_strlit(" val=\"Carlito\" />");
    assert("name val=\"Carlito\" />"@ == "name"@ + " val=\"Carlito\" />"@);
    lemma_plain_tag(prefix, "name"@, " val=\"Carlito\" />"@);
}

/// Seven texts in a row, some of which may be left out.
proof fn lemma_seven_tags(
    a: Seq<char>,
    b: Seq<char>,
    c: Seq<char>,
    d: Seq<char>,
    e: Seq<char>,
    f: Seq<char>,
    g: Seq<char>,
    with_b: bool,
    with_c: bool,
    with_f: bool,
    name: Seq<char>,
)
    requires
        xml::is_tag(a) && xml::is_tag(b) && xml::is_tag(c) && xml::is_tag(d) && xml::is_tag(e),
        xml::is_tag(g),
        with_f ==> xml::is_tag(f),
        xml::tag_name(a) != name && xml::tag_name(d) != name && xml::tag_name(e) != name,
        xml::tag_name(g) != name,
    ensures
        ({
            let none = Seq::<char>::empty();
            let list = xml::tags(
                a + (if with_b {
                    b
                } else {
                    none
                }) + (if with_c {
                    c
                } else {
                    none
                }) + d + e + (if with_f {
                    f
                } else {
                    none
                }) + g,
            );
            &&& list.len() > 0 && list[0] == a
            &&& xml::tag_named(list, name) == if with_b && xml::tag_name(b) == name {
                Some(b)
            } else if with_c && xml::tag_name(c) == name {
                Some(c)
            } else if with_f && xml::tag_name(f) == name {
                Some(f)
            } else {
                None
            }
        }),
{
    let pa = xml::maybe(true, a);
    let pb = xml::maybe(with_b, b);
    let pc = xml::maybe(with_c, c);
    let pd = xml::maybe(true, d);
    let pe = xml::maybe(true, e);
    let pf = xml::maybe(with_f, f);
    let pg = xml::maybe(true, g);
    xml::lemma_maybe(true, a, name);
    xml::lemma_maybe(with_b, b, name);
    xml::lemma_maybe(with_c, c, name);
    xml::lemma_maybe(true, d, name);
    xml::lemma_maybe(true, e, name);
    xml::lemma_maybe(with_f, f, name);
    xml::lemma_maybe(true, g, name);
    let all = pa + pb + pc + pd + pe + pf + pg;
    xml::lemma_rows_add_up(pa, pb, name);
    xml::lemma_rows_add_up(pa + pb, pc, name);
    xml::lemma_rows_add_up(pa + pb + pc, pd, name);
    xml::lemma_rows_add_up(pa + pb + pc + pd, pe, name);
    xml::lemma_rows_add_up(pa + pb + pc + pd + pe, pf, name);
    xml::lemma_rows_add_up(pa + pb + pc + pd + pe + pf, pg, name);
    xml::lemma_tags_in_row(all);
    assert(all[0] == a);
}

proof fn lemma_font_tags(prefix: Seq<char>, i: IntentModel, name: Seq<char>)
    requires
        xml::plain_prefix(prefix),
        name == "i"@ || name == "b"@ || name == "color"@,
    ensures
        xml::tag_named(xml::tags(font_element(prefix, i)), prefix + name) == (if name == "i"@
            && i.italic == Some(true) {
            Some(tag(prefix, "i />"@))
        } else if name == "b"@ && i.bold == Some(true) {
            Some(tag(prefix, "b />"@))
        } else if name == "color"@ && i.font_color is Some {
            Some(tag(prefix, "color rgb=\"FF"@) + xml::escaped(i.font_color->Some_0) + "\" />"@)
        } else {
            None
        }),
        xml::tags(font_element(prefix, i))[0] == tag(prefix, "font>"@),
{
    lemma_font_names();
    lemma_font_open(prefix);
    lemma_font_marks(prefix);
    lemma_font_size(prefix);
    lemma_font_face(prefix);
    let color = match i.font_color {
        Some(c) => tag(prefix, "color rgb=\"FF"@) + xml::escaped(c) + "\" />"@,
        None => Seq::empty(),
    };
    if let Some(c) = i.font_color {
        lemma_color_tag(prefix, c);
    }
    xml::lemma_under_prefix(prefix, name, "font"@);
    xml::lemma_under_prefix(prefix, name, "i"@);
    xml::lemma_under_prefix(prefix, name, "b"@);
    xml::lemma_under_prefix(prefix, name, "sz"@);
    xml::lemma_under_prefix(prefix, name, "name"@);
    xml::lemma_under_prefix(prefix, name, "color"@);
    lemma_seven_tags(
        tag(prefix, "font>"@),
        tag(prefix, "i />"@),
        tag(prefix, "b />"@),
        tag(prefix, "sz val=\"11\" />"@),
        tag(prefix, "name val=\"Carlito\" />"@),
        color,
        end_tag(prefix, "font"@),
        i.italic == Some(true),
        i.bold == Some(true),
        i.font_color is Some,
        prefix + name,
    );
}

/// A font has an element for italics just where italics are asked for, one for bold letters
/// just where bold is asked for, and the colour that is asked for.
pub proof fn law_fonts_show_what_is_asked_for(prefix: Seq<char>, i: IntentModel)
    requires
        xml::plain_prefix(prefix),
    ensures
        xml::has_element(font_element(prefix, i), prefix + "i"@) <==> i.italic == Some(true),
        xml::has_element(font_element(prefix, i), prefix + "b"@) <==> i.bold == Some(true),
        xml::has_element(font_element(prefix, i), prefix + "color"@) <==> i.font_color is Some,
        xml::element_attr(font_element(prefix, i), prefix + "color"@, "rgb"@) == match i.font_color {
            Some(c) => Some("FF"@ + c),
            None => None,
        },
        xml::tag_name(xml::tags(font_element(prefix, i))[0]) == prefix + "font"@,
{
    lemma_font_names();
    lemma_font_open(prefix);
    lemma_font_tags(prefix, i, "i"@);
    lemma_font_tags(prefix, i, "b"@);
    lemma_font_tags(prefix, i, "color"@);
    if let Some(c) = i.font_color {
        lemma_color_tag(prefix, c);
    }
}

proof fn lemma_close(prefix: Seq<char>, name: Seq<char>)
    requires
        xml::plain_prefix(prefix),
        xml::plain_name(name),
    ensures
        xml::is_tag(end_tag(prefix, name)),
        xml::tag_name(end_tag(prefix, name)) == Seq::<char>::empty(),
{
    let full = prefix + name;
    assert forall|j: int| 0 <= j < full.len() implies !xml::ends_name(#[trigger] full[j]) && full[j]
        != '=' && full[j] != '"' && full[j] != '<' by {
        if j < prefix.len() {
            assert(full[j] == prefix[j]);
        } else {
            assert(full[j] == name[j - prefix.len()]);
        }
    }
    xml::lemma_end_tag(full);
    assert(end_tag(prefix, name) == "</"@ + full + ">"@);
}

pub open spec fn fill_element(prefix: Seq<char>, i: IntentModel) -> Seq<char> {
    tag(prefix, "fill>"@) + tag(prefix, "patternFill patternType=\"solid\">"@) + tag(
        prefix,
        "fgColor rgb=\"FF"@,
    ) + xml::escaped(package::or_text(i.fill_color, "FFFFFF"@)) + "\" />"@ + tag(
        prefix,
        "bgColor indexed=\"64\" />"@,
    ) + end_tag(prefix, "patternFill"@) + end_tag(prefix, "fill"@)
}

pub fn format_fill_xml(prefix: &str, i: &CellFormatIntent) -> (r: String)
    ensures
        r@ == fill_element(prefix@, i.deep_view()),
{
    let color = package::text_or(text::copy_option(&i.fill_color), "FFFFFF");
    let mut out = tag_of(prefix, "fill>");
    out.append(&tag_of(prefix, "patternFill patternType=\"solid\">"));
    out.append(&tag_of(prefix, "fgColor rgb=\"FF"));
    out.append(&xml::xml_escape(&color));
    out.append("\" />");
    out.append(&tag_of(prefix, "bgColor indexed=\"64\" />"));
    out.append(&end_tag_of(prefix, "patternFill"));
    out.append(&end_tag_of(prefix, "fill"));
    out
}

pub open spec fn alignment_part(name: Seq<char>, value: Option<Seq<char>>) -> Option<Seq<char>> {
    match value {
        Some(t) => Some(name + "=\""@ + xml::escaped(t) + "\""@),
        None => None,
    }
}

fn alignment_part_of(name: &str, value: &Option<String>) -> (r: Option<String>)
    ensures
        r.deep_view() == alignment_part(name@, value.deep_view()),
{
    match value {
        Some(t) => {
            let mut out = name.to_owned();
            out.append("=\"");
            out.append(&xml::xml_escape(t));
            out.append("\"");
            Some(out)
        },
        None => None,
    }
}

/// The alignment of a format; none where it asks for none.
pub open spec fn alignment_element(prefix: Seq<char>, i: IntentModel) -> Seq<char> {
    if i.any_alignment() {
        let a = objects::pushed(Seq::empty(), alignment_part("horizontal"@, i.horizontal));
        let b = objects::pushed(a, alignment_part("vertical"@, i.vertical));
        let c = objects::pushed(
            b,
            if i.wrap_text == Some(true) {
                Some("wrapText=\"1\""@)
            } else {
                None
            },
        );
        tag(prefix, "alignment "@) + text::joined(c, " "@) + " />"@
    } else {
        Seq::empty()
    }
}

fn alignment_element_of(prefix: &str, i: &CellFormatIntent) -> (r: String)
    ensures
        r@ == alignment_element(prefix@, i.deep_view()),
{
    if !i.has_alignment_changes() {
        return String::new();
    }
    let mut parts: Vec<String> = Vec::new();
    assert(parts.deep_view() == Seq::<Seq<char>>::empty());
    objects::push_some(&mut parts, alignment_part_of("horizontal", &i.horizontal));
    objects::push_some(&mut parts, alignment_part_of("vertical", &i.vertical));
    let wrap = if i.wrap_text == Some(true) {
        Some("wrapText=\"1\"".to_owned())
    } else {
        None
    };
    objects::push_some(&mut parts, wrap);
    let mut out = tag_of(prefix, "alignment ");
    out.append(&text::join(&parts, " "));
    out.append(" />");
    out
}

/// The parts that a cell style is made of, by their numbers.
#[derive(Clone, Copy)]
pub struct StyleBase {
    pub num_fmt_id: usize,
    pub font_id: usize,
    pub fill_id: usize,
    pub border_id: usize,
    pub xf_id: usize,
}

pub open spec fn style_element(prefix: Seq<char>, b: StyleBase, i: IntentModel) -> Seq<char> {
    let alignment = alignment_element(prefix, i);
    tag(prefix, "xf numFmtId=\""@) + text::decimal(b.num_fmt_id as nat) + "\" fontId=\""@ + text::decimal(
        b.font_id as nat,
    ) + "\" fillId=\""@ + text::decimal(b.fill_id as nat) + "\" borderId=\""@ + text::decimal(
        b.border_id as nat,
    ) + "\" xfId=\""@ + text::decimal(b.xf_id as nat)
        + "\" applyNumberFormat=\"1\" applyFont=\"1\" applyFill=\"1\" applyAlignment="@ + (
    if alignment.len() == 0 {
        "\"0\" />"@
    } else {
        "\"1\">"@ + alignment + end_tag(prefix, "xf"@)
    })
}

pub fn format_cell_xf_xml(prefix: &str, b: &StyleBase, i: &CellFormatIntent) -> (r: String)
    ensures
        r@ == style_element(prefix@, *b, i.deep_view()),
{
    let alignment = alignment_element_of(prefix, i);
    let mut out = tag_of(prefix, "xf numFmtId=\"");
    out.append(&text::size_text(b.num_fmt_id));
    out.append("\" fontId=\"");
    out.append(&text::size_text(b.font_id));
    out.append("\" fillId=\"");
    out.append(&text::size_text(b.fill_id));
    out.append("\" borderId=\"");
    out.append(&text::size_text(b.border_id));
    out.append("\" xfId=\"");
    out.append(&text::size_text(b.xf_id));
    out.append("\" applyNumberFormat=\"1\" applyFont=\"1\" applyFill=\"1\" applyAlignment=");
    let rest = if alignment.as_str().is_empty() {
        "\"0\" />".to_owned()
    } else {
        let mut t = "\"1\">".to_owned();
        t.append(&alignment);
        t.append(&end_tag_of(prefix, "xf"));
        t
    };
    out.append(&rest);
    out
}

pub open spec fn number_format_element(prefix: Seq<char>, id: usize, code: Seq<char>) -> Seq<char> {
    tag(prefix, "numFmt numFmtId=\""@) + text::decimal(id as nat) + "\" formatCode=\""@ + xml::escaped(code)
        + "\" />"@
}

fn number_format_element_of(prefix: &str, id: usize, code: &str) -> (r: String)
    ensures
        r@ == number_format_element(prefix@, id, code@),
{
    let mut out = tag_of(prefix, "numFmt numFmtId=\"");
    out.append(&text::size_text(id));
    out.append("\" formatCode=\"");
    out.append(&xml::xml_escape(code));
    out.append("\" />");
    out
}

// ----- What the styles of a workbook have -----

pub open spec fn number_or(n: crate::xml::NodeModel, name: Seq<char>) -> usize {
    match package::as_u32(xml::attr(n, name)) {
        Some(v) => v as usize,
        None => 0,
    }
}

fn number_attr_or(n: &XmlNode, name: &str) -> (r: usize)
    ensures
        r == number_or(n.deep_view(), name@),
{
    match package::attr_u32(n, name) {
        Some(v) => v as usize,
        None => 0,
    }
}

/// The cell styles of a workbook.
pub open spec fn style_nodes(nodes: Nodes) -> Seq<int> {
    match xml::first_of(xml::named(nodes, "cellXfs"@)) {
        Some(i) => package::with_name(nodes, xml::children(nodes, i), "xf"@),
        None => Seq::empty(),
    }
}

/// What the style with the given number is made of; the first style stands in for one
/// that is not there.
pub open spec fn style_base(nodes: Nodes, style_id: u32) -> Fallible<StyleBase> {
    let list = style_nodes(nodes);
    if list.len() == 0 {
        Err(coord::value_error("style_patch: styles.xml has no cellXfs xf"@))
    } else {
        let n = nodes[list[if (style_id as int) < list.len() {
            style_id as int
        } else {
            0
        }]];
        Ok(
            StyleBase {
                num_fmt_id: number_or(n, "numFmtId"@),
                font_id: number_or(n, "fontId"@),
                fill_id: number_or(n, "fillId"@),
                border_id: number_or(n, "borderId"@),
                xf_id: number_or(n, "xfId"@),
            },
        )
    }
}

pub fn style_base_from_doc(nodes: &Vec<XmlNode>, style_id: u32) -> (r: Result<StyleBase, ShadowError>)
    ensures
        plain_view(r) == style_base(nodes.deep_view(), style_id),
{
    let i = match xml::first_named(nodes, "cellXfs") {
        Some(i) => i,
        None => return Err(coord::refuse("style_patch: styles.xml has no cellXfs xf")),
    };
    let list = package::children_named(nodes, i, "xf");
    assert(xml::ints(list@).len() == list.len());
    if list.len() == 0 {
        return Err(coord::refuse("style_patch: styles.xml has no cellXfs xf"));
    }
    let at: usize = if (style_id as usize) < list.len() {
        style_id as usize
    } else {
        0
    };
    let k = list[at];
    assert(xml::ints(list@)[at as int] == k as int);
    assert(nodes.deep_view()[k as int] == nodes@[k as int].deep_view());
    let n = &nodes[k];
    Ok(
        StyleBase {
            num_fmt_id: number_attr_or(n, "numFmtId"),
            font_id: number_attr_or(n, "fontId"),
            fill_id: number_attr_or(n, "fillId"),
            border_id: number_attr_or(n, "borderId"),
            xf_id: number_attr_or(n, "xfId"),
        },
    )
}

/// The highest number of a number format; the numbers up to 163 are reserved.
pub open spec fn highest_format(nodes: Nodes, list: Seq<int>) -> usize
    decreases list.len(),
{
    if list.len() == 0 {
        163
    } else {
        let done = highest_format(nodes, list.drop_last());
        match package::as_u32(xml::attr(nodes[list.last()], "numFmtId"@)) {
            Some(n) => if n > done {
                n as usize
            } else {
                done
            },
            None => done,
        }
    }
}

pub fn max_num_fmt_id(nodes: &Vec<XmlNode>) -> (r: usize)
    ensures
        r == highest_format(nodes.deep_view(), xml::named(nodes.deep_view(), "numFmt"@)),
{
    let ghost all = nodes.deep_view();
    let list = xml::all_named(nodes, "numFmt");
    let ghost model = xml::ints(list@);
    let mut out: usize = 163;
    let mut i: usize = 0;
    assert(model.take(0).len() == 0);
    while i < list.len()
        invariant
            i <= list.len(),
            all == nodes.deep_view(),
            model == xml::ints(list@),
            forall|k: int| 0 <= k < list@.len() ==> #[trigger] list@[k] < nodes.len(),
            out == highest_format(all, model.take(i as int)),
        decreases list.len() - i,
    {
        let at = list[i];
        assert(model.take(i + 1).drop_last() == model.take(i as int));
        assert(model.take(i + 1).last() == at as int);
        assert(all[at as int] == nodes@[at as int].deep_view());
        match package::attr_u32(&nodes[at], "numFmtId") {
            Some(n) => if n as usize > out {
                out = n as usize;
            },
            None => {},
        }
        i = i + 1;
    }
    assert(model.take(model.len() as int) == model);
    out
}

/// How many members a collection declares.
pub open spec fn declared_count(s: Seq<char>, name: Seq<char>) -> usize {
    match pattern::first_match(
        "<(?:[A-Za-z0-9_]+:)?"@ + pattern::escaped(name) + "\\b[^>]*\\bcount=\"(\\d+)\""@,
        s,
    ) {
        Some(groups) => match package::as_u32(pattern::group(groups, 1)) {
            Some(n) => n as usize,
            None => 0,
        },
        None => 0,
    }
}

pub fn collection_count(s: &str, local_name: &str) -> (r: usize)
    ensures
        r == declared_count(s@, local_name@),
{
    let mut p = "<(?:[A-Za-z0-9_]+:)?".to_owned();
    p.append(&pattern::escape(local_name));
    p.append("\\b[^>]*\\bcount=\"(\\d+)\"");
    match pattern::find_first(&p, s) {
        Some(groups) => match pattern::group_of(&groups, 1) {
            Some(t) => match text::parse_bounded(&t, u32::MAX as u64) {
                Some(n) => n as usize,
                None => 0,
            },
            None => 0,
        },
        None => 0,
    }
}

// ----- Adding to a collection -----

/// A document with the count that a collection declares set.
pub open spec fn recounted(s: Seq<char>, name: Seq<char>, count: usize) -> Seq<char> {
    let p = "(<(?:[A-Za-z0-9_]+:)?"@ + pattern::escaped(name)
        + "\\b[^>]*\\bcount=\")\\d+(\"[^>]*>)"@;
    match (pattern::first_cut(p, s), pattern::first_match(p, s)) {
        (Some(cut), Some(groups)) => cut.0 + pattern::group_text(groups, 1) + text::decimal(
            count as nat,
        ) + pattern::group_text(groups, 2) + text::slice(
            s,
            (cut.0.len() + cut.1.len()) as int,
            s.len() as int,
        ),
        _ => s,
    }
}

fn recount(s: &str, name: &str, count: usize) -> (r: String)
    ensures
        r@ == recounted(s@, name@, count),
{
    let mut p = "(<(?:[A-Za-z0-9_]+:)?".to_owned();
    p.append(&pattern::escape(name));
    p.append("\\b[^>]*\\bcount=\")\\d+(\"[^>]*>)");
    match pattern::cut_first(&p, s) {
        Some(cut) => match pattern::find_first(&p, s) {
            Some(groups) => {
                let all = text::chars_of(s);
                assert(cut.0@.len() + cut.1@.len() <= all.len());
                let behind = text::length(&cut.0) + text::length(&cut.1);
                let mut out = cut.0;
                out.append(&pattern::group_text_of(&groups, 1));
                out.append(&text::size_text(count));
                out.append(&pattern::group_text_of(&groups, 2));
                out.append(&text::piece(&all, behind, all.len()));
                out
            },
            None => s.to_owned(),
        },
        None => s.to_owned(),
    }
}

/// A document with members added at the end of a collection.
pub open spec fn collection_appended(s: Seq<char>, name: Seq<char>, children: Seq<Seq<char>>) -> Fallible<
    Seq<char>,
> {
    if children.len() == 0 {
        Ok(s)
    } else {
        let counted = recounted(
            s,
            name,
            objects::saturated(declared_count(s, name) + children.len()),
        );
        match pattern::first_cut(
            "</(?:[A-Za-z0-9_]+:)?"@ + pattern::escaped(name) + ">"@,
            counted,
        ) {
            None => Err(
                coord::value_error(
                    "style_patch: styles.xml missing "@ + name + " closing tag"@,
                ),
            ),
            Some(cut) => Ok(
                splice::inserted(counted, cut.0.len() as int, text::joined(children, ""@)),
            ),
        }
    }
}

pub fn append_collection_xml(s: &str, local_name: &str, children: &Vec<String>) -> (r: Result<
    String,
    ShadowError,
>)
    ensures
        coord::outcome(r) == collection_appended(s@, local_name@, children.deep_view()),
{
    assert(children.deep_view().len() == children.len());
    if children.len() == 0 {
        return Ok(s.to_owned());
    }
    let count = collection_count(s, local_name).saturating_add(children.len());
    let counted = recount(s, local_name, count);
    let mut p = "</(?:[A-Za-z0-9_]+:)?".to_owned();
    p.append(&pattern::escape(local_name));
    p.append(">");
    match pattern::cut_first(&p, &counted) {
        Some(cut) => Ok(
            splice::insert_at_index(&counted, text::length(&cut.0), &text::join(children, "")),
        ),
        None => {
            let mut m = "style_patch: styles.xml missing ".to_owned();
            m.append(local_name);
            m.append(" closing tag");
            Err(ShadowError::Value(m))
        },
    }
}

/// A document with number formats added; where it has none yet, they get a collection
/// of their own before the fonts.
pub open spec fn formats_appended(s: Seq<char>, children: Seq<Seq<char>>) -> Fallible<Seq<char>> {
    if children.len() == 0 {
        Ok(s)
    } else if declared_count(s, "numFmts"@) > 0 {
        collection_appended(s, "numFmts"@, children)
    } else {
        match (
            pattern::first_cut(r"<([A-Za-z0-9_]+:)?fonts\b"@, s),
            pattern::first_match(r"<([A-Za-z0-9_]+:)?fonts\b"@, s),
        ) {
            (Some(cut), Some(groups)) => {
                let prefix = pattern::group_text(groups, 1);
                Ok(
                    splice::inserted(
                        s,
                        cut.0.len() as int,
                        "<"@ + prefix + "numFmts count=\""@ + text::decimal(children.len())
                            + "\">"@ + text::joined(children, ""@) + "</"@ + prefix + "numFmts>"@,
                    ),
                )
            },
            _ => Err(coord::value_error("style_patch: styles.xml missing fonts collection"@)),
        }
    }
}

pub fn append_num_fmts_xml(s: &str, children: &Vec<String>) -> (r: Result<String, ShadowError>)
    ensures
        coord::outcome(r) == formats_appended(s@, children.deep_view()),
{
    assert(children.deep_view().len() == children.len());
    if children.len() == 0 {
        return Ok(s.to_owned());
    }
    if collection_count(s, "numFmts") > 0 {
        return append_collection_xml(s, "numFmts", children);
    }
    match pattern::cut_first(r"<([A-Za-z0-9_]+:)?fonts\b", s) {
        Some(cut) => match pattern::find_first(r"<([A-Za-z0-9_]+:)?fonts\b", s) {
            Some(groups) => {
                let prefix = pattern::group_text_of(&groups, 1);
                let mut t = "<".to_owned();
                t.append(&prefix);
                t.append("numFmts count=\"");
                t.append(&text::size_text(children.len()));
                t.append("\">");
                t.append(&text::join(children, ""));
                t.append("</");
                t.append(&prefix);
                t.append("numFmts>");
                Ok(splice::insert_at_index(s, text::length(&cut.0), &t))
            },
            None => Err(coord::refuse("style_patch: styles.xml missing fonts collection")),
        },
        None => Err(coord::refuse("style_patch: styles.xml missing fonts collection")),
    }
}

// ----- Writing formats -----

/// What is to be added to the styles, and the numbers that come next.
#[verifier::ext_equal]
pub struct StyleAdditions<L> {
    pub formats: L,
    pub fonts: L,
    pub fills: L,
    pub styles: L,
    pub next_format: usize,
    pub next_font: usize,
    pub next_fill: usize,
}

pub type AdditionsModel = StyleAdditions<Seq<Seq<char>>>;

impl DeepView for StyleAdditions<Vec<String>> {
    type V = AdditionsModel;

    open spec fn deep_view(&self) -> AdditionsModel {
        StyleAdditions {
            formats: self.formats.deep_view(),
            fonts: self.fonts.deep_view(),
            fills: self.fills.deep_view(),
            styles: self.styles.deep_view(),
            next_format: self.next_format,
            next_font: self.next_font,
            next_fill: self.next_fill,
        }
    }
}

/// The additions with those of one more format.
pub open spec fn added_style(
    prefix: Seq<char>,
    a: AdditionsModel,
    b: StyleBase,
    i: IntentModel,
) -> AdditionsModel {
    let f = match i.number_format {
        Some(code) => StyleAdditions {
            formats: a.formats.push(number_format_element(prefix, a.next_format, code)),
            next_format: objects::saturated(a.next_format + 1),
            ..a
        },
        None => a,
    };
    let g = if i.any_font() {
        StyleAdditions {
            fonts: f.fonts.push(font_element(prefix, i)),
            next_font: objects::saturated(f.next_font + 1),
            ..f
        }
    } else {
        f
    };
    let h = if i.fill_color is Some {
        StyleAdditions {
            fills: g.fills.push(fill_element(prefix, i)),
            next_fill: objects::saturated(g.next_fill + 1),
            ..g
        }
    } else {
        g
    };
    StyleAdditions {
        styles: h.styles.push(
            style_element(
                prefix,
                StyleBase {
                    num_fmt_id: if i.number_format is Some {
                        a.next_format
                    } else {
                        b.num_fmt_id
                    },
                    font_id: if i.any_font() {
                        a.next_font
                    } else {
                        b.font_id
                    },
                    fill_id: if i.fill_color is Some {
                        a.next_fill
                    } else {
                        b.fill_id
                    },
                    ..b
                },
                i,
            ),
        ),
        ..h
    }
}

fn add_style(
    prefix: &str,
    a: &mut StyleAdditions<Vec<String>>,
    b: StyleBase,
    i: &CellFormatIntent,
)
    ensures
        final(a).deep_view() == added_style(prefix@, old(a).deep_view(), b, i.deep_view()),
{
    let ghost before = a.deep_view();
    let mut base = b;
    match &i.number_format {
        Some(code) => {
            let t = number_format_element_of(prefix, a.next_format, code);
            a.formats.push(t);
            assert(a.formats.deep_view() == before.formats.push(t@));
            base.num_fmt_id = a.next_format;
            a.next_format = a.next_format.saturating_add(1);
        },
        None => {},
    }
    if i.has_font_changes() {
        let t = format_font_xml(prefix, i);
        a.fonts.push(t);
        assert(a.fonts.deep_view() == before.fonts.push(t@));
        base.font_id = a.next_font;
        a.next_font = a.next_font.saturating_add(1);
    }
    if i.has_fill_changes() {
        let t = format_fill_xml(prefix, i);
        a.fills.push(t);
        assert(a.fills.deep_view() == before.fills.push(t@));
        base.fill_id = a.next_fill;
        a.next_fill = a.next_fill.saturating_add(1);
    }
    let t = format_cell_xf_xml(prefix, &base, i);
    a.styles.push(t);
    assert(a.styles.deep_view() == before.styles.push(t@));
}

/// The additions for the first `n` formats.
pub open spec fn additions(
    prefix: Seq<char>,
    nodes: Nodes,
    start: AdditionsModel,
    patches: Seq<StylePatch<Seq<char>>>,
    n: int,
) -> Fallible<AdditionsModel>
    decreases n,
{
    if n <= 0 {
        Ok(start)
    } else {
        match additions(prefix, nodes, start, patches, n - 1) {
            Err(e) => Err(e),
            Ok(done) => match style_base(nodes, patches[n - 1].base_style_id) {
                Err(e) => Err(e),
                Ok(b) => Ok(added_style(prefix, done, b, patches[n - 1].intent)),
            },
        }
    }
}

proof fn lemma_additions_stay_failed(
    prefix: Seq<char>,
    nodes: Nodes,
    start: AdditionsModel,
    patches: Seq<StylePatch<Seq<char>>>,
    i: int,
    n: int,
)
    requires
        0 <= i <= n,
        additions(prefix, nodes, start, patches, i) is Err,
    ensures
        additions(prefix, nodes, start, patches, n) == additions(prefix, nodes, start, patches, i),
    decreases n,
{
    if i < n {
        lemma_additions_stay_failed(prefix, nodes, start, patches, i, n - 1);
    }
}

fn additions_of(
    prefix: &str,
    nodes: &Vec<XmlNode>,
    start: StyleAdditions<Vec<String>>,
    patches: &Vec<StylePatch>,
) -> (r: Result<StyleAdditions<Vec<String>>, ShadowError>)
    ensures
        coord::outcome(r) == additions(
            prefix@,
            nodes.deep_view(),
            start.deep_view(),
            patches.deep_view(),
            patches.deep_view().len() as int,
        ),
{
    let ghost first = start.deep_view();
    let ghost all = patches.deep_view();
    let mut done = start;
    let mut i: usize = 0;
    while i < patches.len()
        invariant
            i <= patches.len(),
            all == patches.deep_view(),
            additions(prefix@, nodes.deep_view(), first, all, i as int) == Ok::<
                AdditionsModel,
                ShadowError<Seq<char>>,
            >(done.deep_view()),
        decreases patches.len() - i,
    {
        assert(all[i as int] == patches@[i as int].deep_view());
        match style_base_from_doc(nodes, patches[i].base_style_id) {
            Ok(b) => add_style(prefix, &mut done, b, &patches[i].intent),
            Err(e) => {
                proof {
                    lemma_additions_stay_failed(
                        prefix@,
                        nodes.deep_view(),
                        first,
                        all,
                        i + 1,
                        all.len() as int,
                    );
                }
                return Err(e);
            },
        }
        i = i + 1;
    }
    Ok(done)
}

/// The prefix under which the document of styles writes its elements.
pub open spec fn styles_prefix(s: Seq<char>, nodes: Nodes) -> Seq<char> {
    match xml::first_of(xml::named(nodes, "cellXfs"@)) {
        Some(i) => splice::node_prefix(s, nodes[i], "cellXfs"@),
        None => Seq::empty(),
    }
}

fn prefix_of_styles(s: &str, nodes: &Vec<XmlNode>) -> (r: String)
    ensures
        r@ == styles_prefix(s@, nodes.deep_view()),
{
    match xml::first_named(nodes, "cellXfs") {
        Some(i) => {
            assert(nodes.deep_view()[i as int] == nodes@[i as int].deep_view());
            splice::prefix_of_node(s, &nodes[i], "cellXfs")
        },
        None => String::new(),
    }
}

pub open spec fn first_additions(s: Seq<char>, nodes: Nodes) -> AdditionsModel {
    StyleAdditions {
        formats: Seq::empty(),
        fonts: Seq::empty(),
        fills: Seq::empty(),
        styles: Seq::empty(),
        next_format: objects::saturated(highest_format(nodes, xml::named(nodes, "numFmt"@)) + 1),
        next_font: declared_count(s, "fonts"@),
        next_fill: declared_count(s, "fills"@),
    }
}

/// The document of styles with what is to be added.
pub open spec fn with_additions(s: Seq<char>, a: AdditionsModel) -> Fallible<Seq<char>> {
    match formats_appended(s, a.formats) {
        Err(e) => Err(e),
        Ok(t) => match collection_appended(t, "fonts"@, a.fonts) {
            Err(e) => Err(e),
            Ok(u) => match collection_appended(u, "fills"@, a.fills) {
                Err(e) => Err(e),
                Ok(v) => collection_appended(v, "cellXfs"@, a.styles),
            },
        },
    }
}

/// The document of styles with one more cell style for each format.
pub open spec fn styles_patched(s: Seq<char>, patches: Seq<StylePatch<Seq<char>>>) -> Fallible<Seq<char>> {
    match package::nodes_of(s) {
        Err(e) => Err(e),
        Ok(nodes) => match additions(
            styles_prefix(s, nodes),
            nodes,
            first_additions(s, nodes),
            patches,
            patches.len() as int,
        ) {
            Err(e) => Err(e),
            Ok(a) => with_additions(s, a),
        },
    }
}

pub fn patch_styles_xml(s: &str, patches: &Vec<StylePatch>) -> (r: Result<String, ShadowError>)
    ensures
        coord::outcome(r) == styles_patched(s@, patches.deep_view()),
{
    let nodes = match package::read_nodes(s) {
        Ok(nodes) => nodes,
        Err(e) => return Err(e),
    };
    let prefix = prefix_of_styles(s, &nodes);
    let start = StyleAdditions {
        formats: Vec::new(),
        fonts: Vec::new(),
        fills: Vec::new(),
        styles: Vec::new(),
        next_format: max_num_fmt_id(&nodes).saturating_add(1),
        next_font: collection_count(s, "fonts"),
        next_fill: collection_count(s, "fills"),
    };
    assert(start.deep_view() == first_additions(s@, nodes.deep_view()));
    assert(patches.deep_view().len() == patches.len());
    let a = match additions_of(&prefix, &nodes, start, patches) {
        Ok(a) => a,
        Err(e) => return Err(e),
    };
    let t = match append_num_fmts_xml(s, &a.formats) {
        Ok(t) => t,
        Err(e) => return Err(e),
    };
    let u = match append_collection_xml(&t, "fonts", &a.fonts) {
        Ok(u) => u,
        Err(e) => return Err(e),
    };
    let v = match append_collection_xml(&u, "fills", &a.fills) {
        Ok(v) => v,
        Err(e) => return Err(e),
    };
    append_collection_xml(&v, "cellXfs", &a.styles)
}

/// Each format adds one cell style, so the style of the format at place `i` has the
/// number of styles there were plus `i`.
pub proof fn law_one_style_for_each_format(
    prefix: Seq<char>,
    nodes: Nodes,
    start: AdditionsModel,
    patches: Seq<StylePatch<Seq<char>>>,
    n: int,
)
    requires
        0 <= n,
    ensures
        additions(prefix, nodes, start, patches, n) matches Ok(a) ==> a.styles.len() == start.styles.len()
            + n,
    decreases n,
{
    if n > 0 {
        law_one_style_for_each_format(prefix, nodes, start, patches, n - 1);
    }
}

} // verus!
