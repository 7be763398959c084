//! What a search finds in a handover document: the cells of its worksheets.

use vstd::prelude::*;

use crate::cellref::cell_name;
use crate::document::{
    cell_fields, cell_lines, col_lines, dimension_fields, format_fields, height_lines, image_lines,
    merge_lines, no_fields, open_rows, ordered, row_fields, row_lines, sheet_fields, sheet_lines,
    sheets_lines, workbook_fields, workbook_lines, wrapped, DocumentView,
};
use crate::lines::{
    close_line, empty_line, line_event, line_tag, lines_events, open_line, read_as, reads_as, Form,
    LineView,
};
use crate::readback::{
    clean_document, law_document_in_order, lemma_attribute, lemma_cell_fields, lemma_ranks,
    lemma_sheet_fields, line_clean, plain_document,
};
use crate::search::{
    found, search_run, search_start, search_step, shown, tag_value, Hit, SearchState,
};
use crate::sheet::{Cell, SheetView};
use crate::text::{holds, law_decimal_reads_back, lower_text};
use crate::xml::EventView;

verus! {

/// Whether the value of a cell holds what is searched for, in lower case.
pub open spec fn cell_matches(c: Cell<Seq<char>>, query: Seq<char>) -> bool {
    c.value.len() > 0 && holds(lower_text(c.value), query)
}

/// The cells of a worksheet, in order, whose values hold what is searched for.
pub open spec fn cell_hits(
    sheet: Seq<char>,
    cells: Seq<Cell<Seq<char>>>,
    query: Seq<char>,
) -> Seq<Hit<Seq<char>>>
    decreases cells.len(),
{
    if cells.len() == 0 {
        Seq::empty()
    } else {
        let before = cell_hits(sheet, cells.drop_last(), query);
        let c = cells.last();
        if cell_matches(c, query) {
            before.push(
                Hit { sheet, cell: cell_name(c.row as nat, c.col as nat), value: shown(c.value) },
            )
        } else {
            before
        }
    }
}

/// The cells of some worksheets whose values hold what is searched for: sheet by sheet, the
/// cells of each in order.
pub open spec fn sheet_hits(sheets: Seq<SheetView>, query: Seq<char>) -> Seq<Hit<Seq<char>>>
    decreases sheets.len(),
{
    if sheets.len() == 0 {
        Seq::empty()
    } else {
        sheet_hits(sheets.drop_last(), query) + cell_hits(
            sheets.last().name,
            ordered(sheets.last().cells),
            query,
        )
    }
}

/// Searching on after events that were searched.
proof fn lemma_run_append(s: SearchState, a: Seq<EventView>, b: Seq<EventView>, query: Seq<char>)
    ensures
        search_run(s, a + b, query) == search_run(search_run(s, a, query), b, query),
    decreases b.len(),
{
    if b.len() == 0 {
        assert(a + b =~= a);
    } else {
        assert((a + b).drop_last() =~= a + b.drop_last());
        assert((a + b).last() == b.last());
        lemma_run_append(s, a, b.drop_last(), query);
    }
}

/// Searching one event.
proof fn lemma_run_one(s: SearchState, e: EventView, query: Seq<char>)
    ensures
        search_run(s, seq![e], query) == search_step(s, e, query),
{
    assert(seq![e].drop_last() =~= Seq::<EventView>::empty());
    assert(search_run(s, Seq::<EventView>::empty(), query) == s);
}

/// Searching lines one after the other.
spec fn run_lines(s: SearchState, lines: Seq<LineView>, query: Seq<char>) -> SearchState {
    search_run(s, lines_events(lines), query)
}

/// Searching lines behind lines.
proof fn lemma_lines_append(s: SearchState, a: Seq<LineView>, b: Seq<LineView>, query: Seq<char>)
    ensures
        run_lines(s, a + b, query) == run_lines(run_lines(s, a, query), b, query),
{
    assert(lines_events(a + b) =~= lines_events(a) + lines_events(b));
    lemma_run_append(s, lines_events(a), lines_events(b), query);
}

/// Searching one line.
proof fn lemma_lines_one(s: SearchState, l: LineView, query: Seq<char>)
    ensures
        run_lines(s, seq![l], query) == search_step(s, line_event(l), query),
{
    assert(lines_events(seq![l]) =~= seq![line_event(l)]);
    lemma_run_one(s, line_event(l), query);
}

/// Whether a line is of no interest to a search.
spec fn dull(l: LineView) -> bool {
    l.form == Form::Close || (l.name != "sheet"@ && l.name != "cell"@)
}

/// Lines of no interest change nothing.
proof fn lemma_dull(s: SearchState, lines: Seq<LineView>, query: Seq<char>)
    requires
        forall|i: int| 0 <= i < lines.len() ==> dull(#[trigger] lines[i]),
    ensures
        run_lines(s, lines, query) == s,
    decreases lines.len(),
{
    if lines.len() > 0 {
        let rest = lines.drop_last();
        assert forall|i: int| 0 <= i < rest.len() implies dull(#[trigger] rest[i]) by {
            assert(dull(lines[i]));
        }
        lemma_dull(s, rest, query);
        assert(lines =~= rest + seq![lines.last()]);
        lemma_lines_append(s, rest, seq![lines.last()], query);
        lemma_lines_one(s, lines.last(), query);
        assert(dull(lines[lines.len() - 1]));
    }
}

/// What the tag of a cell comes to.
proof fn lemma_cell_tag(s: SearchState, l: LineView, c: Cell<Seq<char>>, query: Seq<char>)
    requires
        l.name == "cell"@,
        l.fields == cell_fields(c),
        l.form != Form::Close,
    ensures
        search_step(s, line_event(l), query) == (if cell_matches(c, query) {
            SearchState {
                hits: s.hits.push(
                    Hit {
                        sheet: s.sheet,
                        cell: cell_name(c.row as nat, c.col as nat),
                        value: shown(c.value),
                    },
                ),
                ..s
            }
        } else {
            s
        }),
{
    lemma_ranks();
    lemma_cell_fields(c);
    lemma_attribute(l, "row"@);
    lemma_attribute(l, "col"@);
    lemma_attribute(l, "value"@);
    law_decimal_reads_back(c.col as nat, u32::MAX as nat);
    let t = line_tag(l);
    assert("sheet"@ != "cell"@);
    assert(tag_value(t) == c.value);
    assert(t.number_or("col"@, 0) == c.col);
}

/// What the lines of a cell come to.
proof fn lemma_cell_lines(s: SearchState, c: Cell<Seq<char>>, query: Seq<char>)
    ensures
        !cell_matches(c, query) ==> run_lines(s, cell_lines(c), query) == s,
        cell_matches(c, query) ==> run_lines(s, cell_lines(c), query) == (SearchState {
            hits: s.hits.push(
                Hit {
                    sheet: s.sheet,
                    cell: cell_name(c.row as nat, c.col as nat),
                    value: shown(c.value),
                },
            ),
            ..s
        }),
{
    lemma_ranks();
    match c.format {
        Some(f) => {
            let first = open_line(8, "cell"@, cell_fields(c));
            let rest = seq![
                empty_line(10, "format"@, format_fields(f)),
                close_line(8, "cell"@),
            ];
            assert(cell_lines(c) =~= seq![first] + rest);
            lemma_lines_append(s, seq![first], rest, query);
            lemma_lines_one(s, first, query);
            lemma_cell_tag(s, first, c, query);
            assert(dull(rest[0]));
            assert(dull(rest[1]));
            lemma_dull(run_lines(s, seq![first], query), rest, query);
        },
        None => {
            let only = empty_line(8, "cell"@, cell_fields(c));
            lemma_lines_one(s, only, query);
            lemma_cell_tag(s, only, c, query);
        },
    }
}

/// What the lines of cells in order come to.
proof fn lemma_open_rows(s: SearchState, cells: Seq<Cell<Seq<char>>>, query: Seq<char>)
    ensures
        run_lines(s, open_rows(cells), query) == (SearchState {
            hits: s.hits + cell_hits(s.sheet, cells, query),
            ..s
        }),
    decreases cells.len(),
{
    if cells.len() == 0 {
        assert(s.hits + cell_hits(s.sheet, cells, query) =~= s.hits);
        assert(lines_events(open_rows(cells)) =~= Seq::<EventView>::empty());
    } else {
        let before = cells.drop_last();
        let c = cells.last();
        let row = "row"@;
        let start = open_line(6, row, row_fields(c.row));
        let stop = close_line(6, row);
        let head = if before.len() == 0 {
            seq![start]
        } else if before.last().row != c.row {
            seq![stop, start]
        } else {
            Seq::<LineView>::empty()
        };
        lemma_ranks();
        assert(dull(start) && dull(stop));
        lemma_open_rows(s, before, query);
        lemma_lines_append(s, open_rows(before) + head, cell_lines(c), query);
        lemma_lines_append(s, open_rows(before), head, query);
        let mid = run_lines(s, open_rows(before), query);
        lemma_dull(mid, head, query);
        lemma_cell_lines(mid, c, query);
        assert((s.hits + cell_hits(s.sheet, before, query)).push(
            Hit {
                sheet: s.sheet,
                cell: cell_name(c.row as nat, c.col as nat),
                value: shown(c.value),
            },
        ) =~= s.hits + cell_hits(s.sheet, before, query).push(
            Hit {
                sheet: s.sheet,
                cell: cell_name(c.row as nat, c.col as nat),
                value: shown(c.value),
            },
        ));
    }
}

/// An element with lines of no interest changes nothing.
proof fn lemma_dull_section(
    s: SearchState,
    lines: Seq<LineView>,
    name: Seq<char>,
    inner: Seq<LineView>,
    query: Seq<char>,
)
    requires
        name != "sheet"@,
        name != "cell"@,
        forall|i: int| 0 <= i < inner.len() ==> dull(#[trigger] inner[i]),
    ensures
        run_lines(s, lines + wrapped(name, inner), query) == run_lines(s, lines, query),
{
    let w = wrapped(name, inner);
    lemma_lines_append(s, lines, w, query);
    assert forall|i: int| 0 <= i < w.len() implies dull(#[trigger] w[i]) by {
        if i == 0 {
            assert(w[i] == open_line(4, name, no_fields()));
        } else if i <= inner.len() {
            assert(w[i] == inner[i - 1]);
        } else {
            assert(w[i] == close_line(4, name));
        }
    }
    lemma_dull(run_lines(s, lines, query), w, query);
}

/// What the lines of a worksheet come to.
proof fn lemma_sheet(s: SearchState, sheet: SheetView, query: Seq<char>)
    ensures
        run_lines(s, sheet_lines(sheet), query) == (SearchState {
            sheet: sheet.name,
            hits: s.hits + cell_hits(sheet.name, ordered(sheet.cells), query),
        }),
{
    lemma_ranks();
    let cells = ordered(sheet.cells);
    let first = open_line(2, "sheet"@, sheet_fields(sheet));
    let dims = empty_line(4, "dimensions"@, dimension_fields(sheet));
    let cols = col_lines(sheet.col_widths);
    let heights = height_lines(sheet.row_heights);
    let merges = merge_lines(sheet.merges);
    let rows = row_lines(cells);
    let images = image_lines(sheet.images);
    let l0 = seq![first, dims];
    assert(l0 =~= seq![first] + seq![dims]);
    lemma_lines_append(s, seq![first], seq![dims], query);
    lemma_lines_one(s, first, query);
    lemma_sheet_fields(sheet);
    lemma_attribute(first, "name"@);
    let t0 = SearchState { sheet: sheet.name, ..s };
    assert(dull(dims));
    lemma_lines_one(t0, dims, query);
    assert(run_lines(s, l0, query) == t0);
    let l1 = l0 + wrapped("colWidths"@, cols);
    assert forall|i: int| 0 <= i < cols.len() implies dull(#[trigger] cols[i]) by {}
    lemma_dull_section(s, l0, "colWidths"@, cols, query);
    let l2 = l1 + wrapped("rowHeights"@, heights);
    assert forall|i: int| 0 <= i < heights.len() implies dull(#[trigger] heights[i]) by {}
    lemma_dull_section(s, l1, "rowHeights"@, heights, query);
    let l3 = l2 + wrapped("merges"@, merges);
    assert forall|i: int| 0 <= i < merges.len() implies dull(#[trigger] merges[i]) by {}
    lemma_dull_section(s, l2, "merges"@, merges, query);
    assert(run_lines(s, l3, query) == t0);
    let open = open_line(4, "rows"@, no_fields());
    let close = close_line(4, "rows"@);
    let stop = close_line(6, "row"@);
    let l4 = l3 + wrapped("rows"@, rows);
    lemma_lines_append(s, l3, wrapped("rows"@, rows), query);
    lemma_lines_append(t0, seq![open] + rows, seq![close], query);
    lemma_lines_append(t0, seq![open], rows, query);
    assert(dull(open) && dull(close) && dull(stop));
    lemma_lines_one(t0, open, query);
    lemma_open_rows(t0, cells, query);
    let t1 = run_lines(t0, rows, query);
    if cells.len() > 0 {
        assert(rows =~= open_rows(cells) + seq![stop]);
        lemma_lines_append(t0, open_rows(cells), seq![stop], query);
        lemma_lines_one(run_lines(t0, open_rows(cells), query), stop, query);
    } else {
        assert(rows =~= open_rows(cells));
    }
    assert(t1 == run_lines(t0, open_rows(cells), query));
    lemma_lines_one(t1, close, query);
    assert(run_lines(s, l4, query) == t1);
    let l5 = l4 + wrapped("images"@, images);
    assert forall|i: int| 0 <= i < images.len() implies dull(#[trigger] images[i]) by {}
    lemma_dull_section(s, l4, "images"@, images, query);
    let last = close_line(2, "sheet"@);
    assert(sheet_lines(sheet) =~= l5 + seq![last]);
    lemma_lines_append(s, l5, seq![last], query);
    lemma_lines_one(t1, last, query);
}

/// What the lines of worksheets come to.
proof fn lemma_sheets(s: SearchState, sheets: Seq<SheetView>, query: Seq<char>)
    ensures
        run_lines(s, sheets_lines(sheets), query).hits == s.hits + sheet_hits(sheets, query),
    decreases sheets.len(),
{
    if sheets.len() == 0 {
        assert(s.hits + sheet_hits(sheets, query) =~= s.hits);
        assert(lines_events(sheets_lines(sheets)) =~= Seq::<EventView>::empty());
    } else {
        let before = sheets.drop_last();
        let sheet = sheets.last();
        lemma_sheets(s, before, query);
        lemma_lines_append(s, sheets_lines(before), sheet_lines(sheet), query);
        let mid = run_lines(s, sheets_lines(before), query);
        lemma_sheet(mid, sheet, query);
        let more = cell_hits(sheet.name, ordered(sheet.cells), query);
        assert(s.hits + sheet_hits(before, query) + more =~= s.hits + (sheet_hits(
            before,
            query,
        ) + more));
    }
}

/// Events that differ only where they are of no interest give the same.
proof fn lemma_same_run(
    s: SearchState,
    a: Seq<EventView>,
    lines: Seq<LineView>,
    query: Seq<char>,
)
    requires
        a.len() == lines.len(),
        forall|i: int|
            0 <= i < lines.len() ==> reads_as(#[trigger] a[i], lines[i]) && line_clean(
                lines[i],
                false,
            ),
    ensures
        search_run(s, a, query) == run_lines(s, lines, query),
    decreases a.len(),
{
    if a.len() > 0 {
        let rest = lines.drop_last();
        let l = lines.last();
        let e = a.last();
        assert forall|i: int| 0 <= i < rest.len() implies reads_as(
            #[trigger] a.drop_last()[i],
            rest[i],
        ) && line_clean(rest[i], false) by {
            assert(reads_as(a[i], lines[i]));
        }
        lemma_same_run(s, a.drop_last(), rest, query);
        assert(lines =~= rest + seq![l]);
        lemma_lines_append(s, rest, seq![l], query);
        lemma_lines_one(run_lines(s, rest, query), l, query);
        assert(reads_as(a[a.len() - 1], lines[lines.len() - 1]));
    } else {
        assert(lines_events(lines) =~= Seq::<EventView>::empty());
    }
}

/// A search in what is read of a handover document finds the cells whose values hold what is
/// searched for: sheet by sheet, by row and column, each under its name.
pub proof fn law_search_finds_cells(d: DocumentView, events: Seq<EventView>, query: Seq<char>)
    requires
        plain_document(d),
        read_as(events, workbook_lines(d)),
    ensures
        found(events, query) == sheet_hits(d.sheets, query),
{
    law_document_in_order(d);
    lemma_ranks();
    let lines = workbook_lines(d);
    let first = open_line(0, "workbook"@, workbook_fields(d));
    let middle = sheets_lines(d.sheets);
    let last = close_line(0, "workbook"@);
    let s = search_start();
    let rest = events.skip(1);
    assert(events =~= seq![EventView::Other] + rest);
    lemma_run_append(s, seq![EventView::Other], rest, query);
    lemma_run_one(s, EventView::Other, query);
    assert forall|i: int| 0 <= i < lines.len() implies reads_as(#[trigger] rest[i], lines[i])
        && line_clean(lines[i], false) by {
        assert(reads_as(events[i + 1], lines[i]));
        assert(line_clean(lines[i], clean_document(d)));
    }
    lemma_same_run(s, rest, lines, query);
    lemma_lines_append(s, seq![first] + middle, seq![last], query);
    lemma_lines_append(s, seq![first], middle, query);
    assert(dull(first));
    lemma_lines_one(s, first, query);
    lemma_sheets(s, d.sheets, query);
    lemma_lines_one(run_lines(s, middle, query), last, query);
    assert(s.hits + sheet_hits(d.sheets, query) =~= sheet_hits(d.sheets, query));
}

} // verus!
