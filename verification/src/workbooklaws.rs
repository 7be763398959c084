//! How a workbook leads to its worksheets.

use vstd::prelude::*;
use vstd::utf8::valid_utf8;

use crate::archive::{law_part_found, md5_text, part_index, part_named, parts_of, with_part};
use crate::convert::{cache_valid, document_name, document_of, found_sheets};
use crate::floats::FloatReading;
use crate::styles::{style_state, workbook_styles, StylesView};
use crate::text::without_leading;
use crate::workbook::{
    located, rel_target, relationships, shared_strings, sheet_rid, sheet_state, sheet_step,
    string_state, target_path, workbook_sheets, SheetState,
};
use crate::worksheet::{end_step, read_state, tag_step, worksheet, ReadState};
use crate::xml::{find_attribute, root_attribute, xml_events, EventView, TagView};

verus! {

/// What tells short names apart: length and first character.
spec fn key(s: Seq<char>) -> (nat, char) {
    (s.len(), s[0])
}

/// The names in a workbook differ.
proof fn lemma_keys()
    ensures
        key("sheets"@) == (6nat, 's'),
        key("sheet"@) == (5nat, 's'),
        key("Relationship"@) == (12nat, 'R'),
{
    reveal_strlit("sheets");
    reveal_strlit("sheet");
    reveal_strlit("Relationship");
}

/// One event more.
proof fn lemma_push(events: Seq<EventView>, e: EventView)
    ensures
        sheet_state(events.push(e)) == sheet_step(sheet_state(events), e),
{
    assert(events.push(e).drop_last() =~= events);
}

/// Inside `sheets`, each empty `sheet` tag with a name and an id lists one sheet, behind those
/// before it. Outside, and where name or id are missing or empty, it lists none.
pub proof fn law_sheets_are_listed(events: Seq<EventView>, t: TagView)
    requires
        t.name == "sheet"@,
    ensures
        ({
            let before = sheet_state(events);
            let after = sheet_state(events.push(EventView::Empty(t)));
            let rid = sheet_rid(t);
            &&& after.inside == before.inside
            &&& before.inside && t.attribute("name"@) is Some && t.attribute("name"@)->0.len() > 0
                && rid.len() > 0 ==> after.sheets == before.sheets.push(
                (t.attribute("name"@)->0, rid),
            )
            &&& !before.inside ==> after.sheets == before.sheets
            &&& t.attribute("name"@) is None || t.attribute("name"@)->0.len() == 0 || rid.len()
                == 0 ==> after.sheets == before.sheets
        }),
{
    lemma_push(events, EventView::Empty(t));
}

/// A `sheet` tag gives the relationship of its sheet in the attribute `id`, with whatever prefix
/// where there is none without.
pub proof fn law_sheet_ids(t: TagView)
    ensures
        t.attribute("id"@) is Some ==> sheet_rid(t) == t.attribute("id"@)->0,
        find_attribute(t.attributes, "id"@) is None && t.qualified("id"@) is Some ==> sheet_rid(t)
            == t.qualified("id"@)->0,
        find_attribute(t.attributes, "id"@) is None && t.qualified("id"@) is None ==> sheet_rid(
            t,
        ).len() == 0,
{
}

/// The list of sheets begins and ends with the element `sheets`. Nothing else changes it.
pub proof fn law_the_list_of_sheets(events: Seq<EventView>, t: TagView, e: EventView)
    ensures
        sheet_state(Seq::empty()).sheets.len() == 0,
        !sheet_state(Seq::empty()).inside,
        t.name == "sheets"@ ==> sheet_state(events.push(EventView::Start(t))) == (SheetState {
            inside: true,
            ..sheet_state(events)
        }),
        t.name == "sheets"@ ==> sheet_state(events.push(EventView::End(t.name))) == (SheetState {
            inside: false,
            ..sheet_state(events)
        }),
        t.name != "sheets"@ ==> sheet_state(events.push(EventView::Start(t))) == sheet_state(
            events,
        ) && sheet_state(events.push(EventView::End(t.name))) == sheet_state(events),
        t.name != "sheet"@ ==> sheet_state(events.push(EventView::Empty(t))) == sheet_state(
            events,
        ),
        e is Text || e is Other ==> sheet_state(events.push(e)) == sheet_state(events),
{
    lemma_keys();
    lemma_push(events, EventView::Start(t));
    lemma_push(events, EventView::End(t.name));
    lemma_push(events, EventView::Empty(t));
    lemma_push(events, e);
}

/// Each empty `Relationship` tag with an id and a target lists one relationship; nothing else
/// does.
pub proof fn law_relationships_are_listed(events: Seq<EventView>, t: TagView, e: EventView)
    ensures
        relationships(Seq::empty()).len() == 0,
        t.name == "Relationship"@ && t.attribute("Id"@) is Some && t.attribute("Target"@) is Some
            && t.attribute("Id"@)->0.len() > 0 && t.attribute("Target"@)->0.len() > 0
            ==> relationships(events.push(EventView::Empty(t))) == relationships(events).push(
            (t.attribute("Id"@)->0, t.attribute("Target"@)->0),
        ),
        t.name != "Relationship"@ || t.attribute("Id"@) is None || t.attribute("Target"@) is None
            || t.attribute("Id"@)->0.len() == 0 || t.attribute("Target"@)->0.len() == 0
            ==> relationships(events.push(EventView::Empty(t))) == relationships(events),
        !(e is Empty) ==> relationships(events.push(e)) == relationships(events),
{
    assert(events.push(EventView::Empty(t)).drop_last() =~= events);
    assert(events.push(e).drop_last() =~= events);
}

/// An id leads to the target that was listed with it last; what is listed with another id does
/// not change that, and an id that was not listed leads nowhere.
pub proof fn law_ids_lead_to_their_target(
    rels: Seq<(Seq<char>, Seq<char>)>,
    id: Seq<char>,
    target: Seq<char>,
    other: Seq<char>,
)
    ensures
        rel_target(Seq::empty(), id) is None,
        rel_target(rels.push((id, target)), id) == Some(target),
        other != id ==> rel_target(rels.push((id, target)), other) == rel_target(rels, other),
{
    assert(rels.push((id, target)).drop_last() =~= rels);
}

/// A target is a path from the root of the archive where it begins with a slash, and one below
/// its directory where it does not.
pub proof fn law_targets_name_parts(base: Seq<char>, s: Seq<char>)
    requires
        s.len() > 0,
        s[0] != '/',
    ensures
        target_path(base, s) == base + s,
        target_path(base, seq!['/'] + s) == s,
{
    let slash = seq!['/'];
    assert(s.take(1)[0] == s[0]);
    assert((slash + s).take(1) =~= slash);
    assert((slash + s).skip(1) =~= s);
    reveal_with_fuel(without_leading, 2);
}

/// Sheets stand in the order of the workbook, each with the part in `xl` to which its id leads;
/// one whose id leads nowhere is left out.
pub proof fn law_sheets_are_located(
    sheets: Seq<(Seq<char>, Seq<char>)>,
    name: Seq<char>,
    rid: Seq<char>,
    rels: Seq<(Seq<char>, Seq<char>)>,
)
    ensures
        located(Seq::empty(), rels).len() == 0,
        rel_target(rels, rid) is None ==> located(sheets.push((name, rid)), rels) == located(
            sheets,
            rels,
        ),
        rel_target(rels, rid) matches Some(t) ==> located(sheets.push((name, rid)), rels)
            == located(sheets, rels).push((name, target_path("xl/"@, t))),
{
    assert(sheets.push((name, rid)).drop_last() =~= sheets);
}

/// The list of sheets is read from `xl/workbook.xml`, the relationships from
/// `xl/_rels/workbook.xml.rels`, the shared strings from `xl/sharedStrings.xml` with their white
/// space, and the styles from `xl/styles.xml`. What is missing is empty.
pub proof fn law_parts_of_a_workbook(
    parts: Seq<(Seq<char>, Seq<u8>)>,
    readings: Seq<FloatReading<Seq<char>>>,
)
    ensures
        part_named(parts, "xl/workbook.xml"@) is None ==> workbook_sheets(parts).len() == 0,
        part_named(parts, "xl/workbook.xml"@) matches Some(data) ==> workbook_sheets(parts)
            == located(
            sheet_state(xml_events(data, true)).sheets,
            match part_named(parts, "xl/_rels/workbook.xml.rels"@) {
                Some(r) => relationships(xml_events(r, true)),
                None => Seq::empty(),
            },
        ),
        part_named(parts, "xl/sharedStrings.xml"@) is None ==> shared_strings(parts).len() == 0,
        part_named(parts, "xl/sharedStrings.xml"@) matches Some(data) ==> shared_strings(parts)
            == string_state(xml_events(data, false)).strings,
        part_named(parts, "xl/styles.xml"@) matches Some(data) ==> workbook_styles(parts, readings)
            == style_state(xml_events(data, true), readings).styles,
        part_named(parts, "xl/styles.xml"@) is None ==> ({
            let s = workbook_styles(parts, readings);
            &&& s.fonts.len() == 0 && s.fills.len() == 0 && s.borders.len() == 0
            &&& s.cell_xfs.len() == 0 && s.num_fmts.len() == 0
        }),
{
}

/// The name of a worksheet, and that it has no images, while it is being read.
proof fn lemma_read_name(
    events: Seq<EventView>,
    name: Seq<char>,
    shared: Seq<Seq<char>>,
    styles: StylesView,
    readings: Seq<FloatReading<Seq<char>>>,
)
    ensures
        read_state(events, name, shared, styles, readings).sheet.name == name,
        read_state(events, name, shared, styles, readings).sheet.images.len() == 0,
    decreases events.len(),
{
    if events.len() > 0 {
        let rest = events.drop_last();
        lemma_read_name(rest, name, shared, styles, readings);
        let s = read_state(rest, name, shared, styles, readings);
        match events.last() {
            EventView::Start(t) => {
                lemma_tag_name(s, t, readings);
            },
            EventView::Empty(t) => {
                lemma_tag_name(s, t, readings);
                lemma_end_name(tag_step(s, t, readings), t.name, shared, styles);
            },
            EventView::End(n) => {
                lemma_end_name(s, n, shared, styles);
            },
            _ => {},
        }
    }
}

/// A tag changes neither the name nor the images.
proof fn lemma_tag_name(s: ReadState, t: TagView, readings: Seq<FloatReading<Seq<char>>>)
    ensures
        tag_step(s, t, readings).sheet.name == s.sheet.name,
        tag_step(s, t, readings).sheet.images == s.sheet.images,
{
    reveal(tag_step);
}

/// An end tag changes neither the name nor the images.
proof fn lemma_end_name(
    s: ReadState,
    name: Seq<char>,
    shared: Seq<Seq<char>>,
    styles: StylesView,
)
    ensures
        end_step(s, name, shared, styles).sheet.name == s.sheet.name,
        end_step(s, name, shared, styles).sheet.images == s.sheet.images,
{
    reveal(end_step);
}

/// A worksheet has the name that the workbook gives it, and no images unless it has a drawing.
pub proof fn law_worksheets_have_their_name(
    data: Seq<u8>,
    name: Seq<char>,
    shared: Seq<Seq<char>>,
    styles: StylesView,
    parts: Seq<(Seq<char>, Seq<u8>)>,
    readings: Seq<FloatReading<Seq<char>>>,
)
    ensures
        ({
            let w = worksheet(data, name, shared, styles, parts, readings);
            let events = xml_events(data, false);
            &&& w.name == name
            &&& !read_state(events, name, shared, styles, readings).drawing ==> w.images.len() == 0
        }),
{
    lemma_read_name(xml_events(data, false), name, shared, styles, readings);
}

/// A workbook is converted sheet by sheet, in its order: each sheet whose part is there becomes
/// one worksheet of its name, read from that part; one whose part is missing is left out.
pub proof fn law_sheets_are_converted_in_order(
    sheets: Seq<(Seq<char>, Seq<char>)>,
    name: Seq<char>,
    path: Seq<char>,
    parts: Seq<(Seq<char>, Seq<u8>)>,
    shared: Seq<Seq<char>>,
    styles: StylesView,
    readings: Seq<FloatReading<Seq<char>>>,
)
    ensures
        ({
            let before = found_sheets(sheets, parts, shared, styles, readings);
            let after = found_sheets(sheets.push((name, path)), parts, shared, styles, readings);
            &&& found_sheets(Seq::empty(), parts, shared, styles, readings).len() == 0
            &&& part_named(parts, path) is None ==> after == before
            &&& part_named(parts, path) matches Some(data) ==> after == before.push(
                worksheet(data, name, shared, styles, parts, readings),
            ) && after.last().name == name
        }),
{
    assert(sheets.push((name, path)).drop_last() =~= sheets);
    if let Some(data) = part_named(parts, path) {
        law_worksheets_have_their_name(data, name, shared, styles, parts, readings);
    }
}

/// The parts of an archive are read one by one: each takes the place of an earlier one of its
/// name, and the first that cannot be read is the error of all.
pub proof fn law_archives_are_read_part_by_part(
    places: Seq<Result<(Seq<char>, Seq<u8>), Seq<char>>>,
    name: Seq<char>,
    data: Seq<u8>,
    error: Seq<char>,
    other: Seq<char>,
)
    ensures
        parts_of(Seq::empty()) == Ok::<Seq<(Seq<char>, Seq<u8>)>, Seq<char>>(Seq::empty()),
        parts_of(places) matches Ok(parts) ==> {
            let more = parts_of(places.push(Ok((name, data))));
            &&& more is Ok
            &&& part_named(more->Ok_0, name) == Some(data)
            &&& other != name ==> part_named(more->Ok_0, other) == part_named(parts, other)
            &&& parts_of(places.push(Err(error))) == Err::<
                Seq<(Seq<char>, Seq<u8>)>,
                Seq<char>,
            >(error)
        },
        parts_of(places) is Err ==> parts_of(places.push(Ok((name, data)))) == parts_of(places)
            && parts_of(places.push(Err(error))) == parts_of(places),
{
    let good = Ok::<(Seq<char>, Seq<u8>), Seq<char>>((name, data));
    let bad = Err::<(Seq<char>, Seq<u8>), Seq<char>>(error);
    assert(places.push(good).drop_last() =~= places);
    assert(places.push(bad).drop_last() =~= places);
    if let Ok(parts) = parts_of(places) {
        law_part_found(parts, name, data, other);
    }
}

/// A part takes the place of the first one of its name, and stands behind all others where there
/// is none.
pub proof fn law_parts_keep_their_places(
    parts: Seq<(Seq<char>, Seq<u8>)>,
    name: Seq<char>,
    data: Seq<u8>,
    i: int,
)
    requires
        0 <= i <= parts.len(),
        forall|j: int| 0 <= j < i ==> (#[trigger] parts[j]).0 != name,
        i < parts.len() ==> parts[i].0 == name,
    ensures
        i < parts.len() ==> with_part(parts, name, data) == parts.update(i, (name, data)),
        i == parts.len() ==> with_part(parts, name, data) == parts.push((name, data)),
        i < parts.len() ==> part_named(parts, name) == Some(parts[i].1),
        i == parts.len() ==> part_named(parts, name) is None,
{
    lemma_place(parts, name, i);
}

/// The first place of a name.
proof fn lemma_place(parts: Seq<(Seq<char>, Seq<u8>)>, name: Seq<char>, i: int)
    requires
        0 <= i <= parts.len(),
        forall|j: int| 0 <= j < i ==> (#[trigger] parts[j]).0 != name,
        i < parts.len() ==> parts[i].0 == name,
    ensures
        part_index(parts, name) == i,
    decreases parts.len(),
{
    if i > 0 {
        assert(parts[0].0 != name);
        let rest = parts.skip(1);
        assert forall|j: int| 0 <= j < i - 1 implies (#[trigger] rest[j]).0 != name by {
            assert(rest[j] == parts[j + 1]);
        }
        lemma_place(rest, name, i - 1);
    }
}

/// A cached document is up to date exactly if it and its workbook can be read, it is text, and
/// the fingerprint in its root element is that of the workbook.
pub proof fn law_cached_documents_are_up_to_date(
    file: Seq<u8>,
    document: Seq<u8>,
    other: Option<Seq<u8>>,
)
    ensures
        !cache_valid(None, other),
        !cache_valid(other, None),
        !valid_utf8(document) ==> !cache_valid(Some(file), Some(document)),
        root_attribute(xml_events(document, true), "hash"@) matches Some(h) ==> (cache_valid(
            Some(file),
            Some(document),
        ) <==> valid_utf8(document) && h == md5_text(file)),
        root_attribute(xml_events(document, true), "hash"@) is None && md5_text(file).len() > 0
            ==> !cache_valid(Some(file), Some(document)),
{
}

/// A document goes by the name of its file, and by `unknown.xlsx` where that has none.
pub proof fn law_documents_go_by_a_name(filename: Option<&str>)
    ensures
        filename matches Some(n) ==> document_name(filename) == n@,
        filename is None ==> document_name(filename) == "unknown.xlsx"@,
{
}

/// The document of a workbook has the name, the time and the fingerprint that it is given, and
/// the worksheets of the workbook.
pub proof fn law_documents_hold_the_workbook(
    parts: Seq<(Seq<char>, Seq<u8>)>,
    filename: Seq<char>,
    converted: Seq<char>,
    hash: Seq<char>,
    readings: Seq<FloatReading<Seq<char>>>,
)
    ensures
        ({
            let d = document_of(parts, filename, converted, hash, readings);
            &&& d.filename == filename
            &&& d.converted == converted
            &&& d.hash == hash
            &&& d.sheets == found_sheets(
                workbook_sheets(parts),
                parts,
                shared_strings(parts),
                workbook_styles(parts, readings),
                readings,
            )
        }),
{
}

} // verus!
