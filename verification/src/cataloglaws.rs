//! What a search finds, what a catalog lists, and how requests are answered.

use vstd::prelude::*;
use vstd::utf8::encode_utf8;

use crate::catalog::{
    code_documents, code_names, codes_names, codes_of, documents_of, is_document, labelled, name_at,
    structure, takes_part, team_codes, teams_names, CodeDirView, CodeView, DocumentName, Place,
    TeamDirView, TeamView,
};
use crate::cellref::col_letters;
use crate::order::{bytes_before, document_before, name_before};
use crate::requests::{
    allowed_part, attachment, bad_path, cache_name, extension_at, failed, json_char, json_escaped,
    malformed, not_found, stem, unquoted,
};
use crate::search::{found, search_run, search_start, shown, Hit};
use crate::text::{begins_with, decimal, ends_with, holds, law_decimal_reads_back, lower_text};
use crate::xml::{EventView, TagView};

verus! {

/// A text holds another exactly if it is that text with something, or nothing, on both sides.
pub proof fn law_what_a_text_holds(s: Seq<char>, a: Seq<char>, p: Seq<char>, b: Seq<char>)
    ensures
        holds(a + p + b, p),
        holds(s, p) ==> exists|x: Seq<char>, y: Seq<char>| s == #[trigger] (x + p + y),
{
    let all = a + p + b;
    let i = a.len() as int;
    assert(all.subrange(i, i + p.len()) =~= p);
    if holds(s, p) {
        let i = choose|i: int|
            0 <= i <= s.len() - p.len() && #[trigger] s.subrange(i, i + p.len()) == p;
        let x = s.take(i);
        let y = s.skip(i + p.len());
        assert(s =~= x + p + y);
    }
}

/// The names of a search differ.
proof fn lemma_names()
    ensures
        "sheet"@.len() == 5,
        "cell"@.len() == 4,
{
    reveal_strlit("sheet");
    reveal_strlit("cell");
}

/// A search looks at the values of cells: each cell with a value that holds what is asked for is
/// one hit, in the order of the document, with the name of the sheet that began last, the letters
/// of its column and its row, and as much of its value as is shown. No other cell is a hit.
pub proof fn law_hits(
    events: Seq<EventView>,
    e: EventView,
    t: TagView,
    value: Seq<char>,
    col: u32,
    row: Seq<char>,
    query: Seq<char>,
)
    requires
        e == EventView::Start(t) || e == EventView::Empty(t),
        t.name == "cell"@,
        t.attribute("value"@) == Some(value),
        t.attribute("col"@) == Some(decimal(col as nat)),
        t.attribute("row"@) == Some(row),
    ensures
        ({
            let before = search_run(search_start(), events, query);
            let after = search_run(search_start(), events.push(e), query);
            let hit = Hit {
                sheet: before.sheet,
                cell: col_letters(col as nat) + row,
                value: shown(value),
            };
            &&& after.sheet == before.sheet
            &&& found(events, query) == before.hits
            &&& value.len() > 0 && holds(lower_text(value), query) ==> after.hits
                == before.hits.push(hit)
            &&& value.len() == 0 || !holds(lower_text(value), query) ==> after.hits == before.hits
        }),
{
    lemma_names();
    law_decimal_reads_back(col as nat, u32::MAX as nat);
    assert(events.push(e).drop_last() =~= events);
}

/// A sheet begins with its tag. Tags of other names, texts and ends change nothing of a search,
/// and at its beginning nothing was found.
pub proof fn law_what_a_search_passes_over(
    events: Seq<EventView>,
    e: EventView,
    t: TagView,
    query: Seq<char>,
)
    ensures
        found(Seq::empty(), query).len() == 0,
        ({
            let before = search_run(search_start(), events, query);
            let after = search_run(search_start(), events.push(e), query);
            &&& (e == EventView::Start(t) || e == EventView::Empty(t)) && t.name == "sheet"@ ==> {
                &&& after.hits == before.hits
                &&& t.attribute("name"@) matches Some(n) ==> after.sheet == n
                &&& t.attribute("name"@) is None ==> after.sheet.len() == 0
            }
            &&& (e == EventView::Start(t) || e == EventView::Empty(t)) && t.name != "sheet"@
                && t.name != "cell"@ ==> after == before
            &&& (e == EventView::Start(t) || e == EventView::Empty(t)) && t.name == "cell"@
                && t.attribute("value"@) is None ==> after == before
            &&& !(e is Start) && !(e is Empty) ==> after == before
        }),
{
    lemma_names();
    assert(events.push(e).drop_last() =~= events);
}

/// A document is a file whose name ends in `.xlsx` and does not begin as that of a lock file.
pub proof fn law_documents_by_their_names(s: Seq<char>, name: Seq<char>)
    ensures
        !begins_with(s + ".xlsx"@, "~$"@) ==> is_document(s + ".xlsx"@),
        !is_document("~$"@ + s),
        is_document(name) ==> name.len() >= 5 && name.skip(name.len() - 5) == ".xlsx"@,
{
    reveal_strlit(".xlsx");
    let all = s + ".xlsx"@;
    assert(all.skip(all.len() - 5) =~= ".xlsx"@);
    assert(("~$"@ + s).take("~$"@.len() as int) =~= "~$"@);
}

/// A directory takes part if it is one and its name does not begin with a point.
pub proof fn law_directories_that_take_part(s: Seq<char>, is_dir: bool)
    ensures
        !takes_part("."@ + s, is_dir),
        !takes_part(s, false),
        s.len() == 0 || s[0] != '.' ==> takes_part(s, true),
{
    reveal_strlit(".");
    assert(("."@ + s).take(1) =~= "."@);
    if s.len() > 0 && s[0] != '.' {
        assert(s.take(1)[0] == s[0]);
        assert("."@[0] == '.');
    }
}

/// The documents of a directory are those of its files that are documents, in their order; a
/// directory that does not take part, or cannot be listed, has none.
pub proof fn law_documents_are_listed(
    files: Seq<Seq<char>>,
    name: Seq<char>,
    c: CodeDirView,
)
    ensures
        documents_of(Seq::empty()).len() == 0,
        is_document(name) ==> documents_of(files.push(name)) == documents_of(files).push(name),
        !is_document(name) ==> documents_of(files.push(name)) == documents_of(files),
        c.files is None ==> code_documents(c).len() == 0,
        !takes_part(c.name, c.is_dir) ==> code_documents(c).len() == 0,
        takes_part(c.name, c.is_dir) && c.files is Some ==> code_documents(c) == documents_of(
            c.files->0,
        ),
{
    assert(files.push(name).drop_last() =~= files);
}

/// A code is listed with its documents if it has any, and a team with its codes if it has any,
/// each in the order of the directories.
pub proof fn law_codes_and_teams_are_listed(
    codes: Seq<CodeDirView>,
    c: CodeDirView,
    teams: Seq<TeamDirView>,
    t: TeamDirView,
)
    ensures
        codes_of(Seq::empty()).len() == 0,
        code_documents(c).len() > 0 ==> codes_of(codes.push(c)) == codes_of(codes).push(
            CodeView { name: c.name, documents: code_documents(c) },
        ),
        code_documents(c).len() == 0 ==> codes_of(codes.push(c)) == codes_of(codes),
        t.codes is None || !takes_part(t.name, t.is_dir) ==> team_codes(t).len() == 0,
        t.codes is Some && takes_part(t.name, t.is_dir) ==> team_codes(t) == codes_of(t.codes->0),
        structure(Seq::empty()).len() == 0,
        team_codes(t).len() > 0 ==> structure(teams.push(t)) == structure(teams).push(
            TeamView { name: t.name, codes: team_codes(t) },
        ),
        team_codes(t).len() == 0 ==> structure(teams.push(t)) == structure(teams),
{
    assert(codes.push(c).drop_last() =~= codes);
    assert(teams.push(t).drop_last() =~= teams);
}

/// The documents of a catalog are searched team by team, code by code, in their order.
pub proof fn law_documents_are_searched_in_order(
    teams: Seq<TeamView>,
    t: TeamView,
    codes: Seq<CodeView>,
    c: CodeView,
    team: Seq<char>,
    i: int,
)
    ensures
        teams_names(Seq::empty()).len() == 0,
        teams_names(teams.push(t)) == teams_names(teams) + codes_names(t.name, t.codes),
        codes_names(team, Seq::empty()).len() == 0,
        codes_names(team, codes.push(c)) == codes_names(team, codes) + code_names(team, c),
        code_names(team, c).len() == c.documents.len(),
        0 <= i < c.documents.len() ==> ({
            let d = code_names(team, c)[i];
            d.team == team && d.code == c.name && d.filename == c.documents[i]
        }),
{
    assert(teams.push(t).drop_last() =~= teams);
    assert(codes.push(c).drop_last() =~= codes);
}

/// Names are ordered by their bytes: at the first place where they differ the smaller byte comes
/// first, and a name comes before all that go on behind it.
pub proof fn law_names_are_ordered_by_their_bytes(
    p: Seq<u8>,
    x: u8,
    a: Seq<u8>,
    y: u8,
    b: Seq<u8>,
    m: Seq<char>,
    n: Seq<char>,
)
    ensures
        x != y ==> (bytes_before(p + (seq![x] + a), p + (seq![y] + b)) <==> x < y),
        bytes_before(p, p + (seq![y] + b)),
        !bytes_before(p + (seq![x] + a), p),
        !bytes_before(p, p),
        name_before(m, n) <==> bytes_before(encode_utf8(m), encode_utf8(n)),
    decreases p.len(),
{
    let u = p + (seq![x] + a);
    let v = p + (seq![y] + b);
    if p.len() == 0 {
        assert(u[0] == x);
        assert(v[0] == y);
    } else {
        assert(u[0] == p[0] && v[0] == p[0]);
        let rest = p.drop_first();
        law_names_are_ordered_by_their_bytes(rest, x, a, y, b, m, n);
        assert(u.drop_first() =~= rest + (seq![x] + a));
        assert(v.drop_first() =~= rest + (seq![y] + b));
    }
}

/// Documents are ordered by their team, then by their code, then by their name.
pub proof fn law_documents_are_ordered(a: DocumentName, b: DocumentName)
    ensures
        name_before(a.team, b.team) ==> document_before(a, b),
        a.team == b.team && name_before(a.code, b.code) ==> document_before(a, b),
        a.team == b.team && a.code == b.code ==> (document_before(a, b) <==> name_before(
            a.filename,
            b.filename,
        ) || name_before(a.team, b.team) || name_before(a.code, b.code)),
        document_before(a, b) ==> name_before(a.team, b.team) || a.team == b.team,
{
}

/// A hit is reported with the team, the code and the name of its document, and with its own
/// sheet, cell and value.
pub proof fn law_hits_are_labelled(name: DocumentName, hits: Seq<Hit<Seq<char>>>, i: int)
    requires
        0 <= i < hits.len(),
    ensures
        ({
            let r = labelled(name, hits)[i];
            &&& labelled(name, hits).len() == hits.len()
            &&& r.team == name.team && r.code == name.code && r.filename == name.filename
            &&& r.sheet == hits[i].sheet && r.cell == hits[i].cell && r.value == hits[i].value
        }),
{
}

/// The place of a document names its team, its code and its file.
pub proof fn law_places_name_documents(teams: Seq<TeamDirView>, p: Place)
    ensures
        ({
            let team = teams[p.team as int];
            let code = team.codes->0[p.code as int];
            let d = name_at(teams, p);
            d.team == team.name && d.code == code.name && d.filename == code.files->0[p.file as int]
        }),
{
}

/// Where the extension of a name begins.
proof fn lemma_extension(a: Seq<char>, e: Seq<char>)
    requires
        a.len() > 0,
        !e.contains('.'),
    ensures
        extension_at(a.push('.') + e) == Some(a.len() as int),
    decreases e.len(),
{
    let all = a.push('.') + e;
    if e.len() == 0 {
        assert(all =~= a.push('.'));
    } else {
        let rest = e.drop_last();
        assert(e[e.len() - 1] == e.last());
        assert(!rest.contains('.')) by {
            if rest.contains('.') {
                let i = choose|i: int| 0 <= i < rest.len() && rest[i] == '.';
                assert(e[i] == '.');
            }
        }
        lemma_extension(a, rest);
        assert(all.drop_last() =~= a.push('.') + rest);
        assert(all.last() == e.last());
    }
}

/// The document of a workbook is cached under the name of the workbook, with `.xml` in place of
/// what follows its last point.
pub proof fn law_cached_names(a: Seq<char>, e: Seq<char>)
    requires
        a.len() > 0,
        !e.contains('.'),
    ensures
        stem(a.push('.') + e) == a,
        cache_name(a.push('.') + e) == a + ".xml"@,
{
    lemma_extension(a, e);
    assert((a.push('.') + e).take(a.len() as int) =~= a);
}

/// A name without a point has no extension, and keeps all of itself in the cache.
pub proof fn law_names_without_extension(s: Seq<char>)
    requires
        !s.contains('.'),
    ensures
        stem(s) == s,
        cache_name(s) == s + ".xml"@,
    decreases s.len(),
{
    lemma_no_extension(s);
}

/// No point, no extension.
proof fn lemma_no_extension(s: Seq<char>)
    requires
        !s.contains('.'),
    ensures
        extension_at(s) is None,
    decreases s.len(),
{
    if s.len() > 1 {
        assert(s[s.len() - 1] == s.last());
        let rest = s.drop_last();
        assert(!rest.contains('.')) by {
            if rest.contains('.') {
                let i = choose|i: int| 0 <= i < rest.len() && rest[i] == '.';
                assert(s[i] == '.');
            }
        }
        lemma_no_extension(rest);
    }
}

/// A part of a request is never allowed to lead elsewhere: not if it is empty or a point, nor if
/// it holds a separator or two points in a row, wherever they stand.
pub proof fn law_parts_that_lead_elsewhere(a: Seq<char>, b: Seq<char>)
    ensures
        !allowed_part(Seq::empty()),
        !allowed_part(seq!['.']),
        !allowed_part(a + seq!['/'] + b),
        !allowed_part(a + seq!['\\'] + b),
        !allowed_part(a + seq!['.', '.'] + b),
{
    let i = a.len() as int;
    assert((a + seq!['/'] + b)[i] == '/');
    assert((a + seq!['\\'] + b)[i] == '\\');
    law_what_a_text_holds(a, a, seq!['.', '.'], b);
}

/// A part of a request of letters, digits and the like is allowed.
pub proof fn law_ordinary_parts_are_allowed(s: Seq<char>)
    requires
        s.len() > 0,
        forall|i: int|
            0 <= i < s.len() ==> #[trigger] s[i] != '/' && s[i] != '\\',
        forall|i: int| 0 <= i < s.len() - 1 ==> !(#[trigger] s[i] == '.' && s[i + 1] == '.'),
        s != seq!['.'],
    ensures
        allowed_part(s),
{
    assert(!s.contains('/'));
    assert(!s.contains('\\'));
    let up = seq!['.', '.'];
    if holds(s, up) {
        let i = choose|i: int|
            0 <= i <= s.len() - up.len() && #[trigger] s.subrange(i, i + up.len()) == up;
        assert(s.subrange(i, i + up.len())[0] == s[i]);
        assert(s.subrange(i, i + up.len())[1] == s[i + 1]);
        assert(up[0] == '.' && up[1] == '.');
    }
}

/// A bad path and a document that breaks off are answered with 400, a file that is not there with
/// 404, and a failure with 500; the reason of a failure and of an error is part of the answer.
pub proof fn law_refusals(reason: Seq<char>)
    ensures
        bad_path().status == 400,
        not_found().status == 404,
        failed(reason).status == 500,
        failed(reason).message == reason,
        malformed(reason).status == 400,
        ends_with(malformed(reason).message, reason),
{
    let m = malformed(reason).message;
    assert(m.skip(m.len() - reason.len()) =~= reason);
}

/// A download goes by its name without quotation marks, in quotation marks.
pub proof fn law_names_of_downloads(a: Seq<char>, b: Seq<char>, s: Seq<char>)
    ensures
        attachment(s) == "attachment; filename=\""@ + unquoted(s) + "\""@,
        unquoted(a + b) == unquoted(a) + unquoted(b),
        unquoted(seq!['"']).len() == 0,
        !s.contains('"') ==> unquoted(s) == s,
    decreases s.len(),
{
    let keep = |c: char| c != '"';
    Seq::filter_distributes_over_add(a, b, keep);
    reveal(Seq::filter);
    assert(seq!['"'].drop_last() =~= Seq::<char>::empty());
    assert(seq!['"'].last() == '"');
    assert(unquoted(Seq::<char>::empty()).len() == 0);
    if !s.contains('"') {
        lemma_unquoted(s);
    }
}

/// A text without quotation marks stays.
proof fn lemma_unquoted(s: Seq<char>)
    requires
        !s.contains('"'),
    ensures
        unquoted(s) == s,
    decreases s.len(),
{
    reveal(Seq::filter);
    if s.len() > 0 {
        let rest = s.drop_last();
        assert(s[s.len() - 1] == s.last());
        assert(!rest.contains('"')) by {
            if rest.contains('"') {
                let i = choose|i: int| 0 <= i < rest.len() && rest[i] == '"';
                assert(s[i] == '"');
            }
        }
        lemma_unquoted(rest);
        assert(rest.push(s.last()) =~= s);
    } else {
        assert(unquoted(s) =~= s);
    }
}

/// A JSON text is escaped character by character: quotation marks and backslashes by a
/// backslash, control characters by their short names or their numbers, and nothing else.
pub proof fn law_json_texts(s: Seq<char>, c: char)
    ensures
        json_escaped(Seq::empty()).len() == 0,
        json_escaped(s.push(c)) == json_escaped(s) + json_char(c),
        json_char('"') == seq!['\\', '"'],
        json_char('\\') == seq!['\\', '\\'],
        json_char('\n') == seq!['\\', 'n'],
        json_char('\r') == seq!['\\', 'r'],
        json_char('\t') == seq!['\\', 't'],
        (c as u32) >= 0x20 && c != '"' && c != '\\' ==> json_char(c) == seq![c],
        (c as u32) < 0x20 ==> json_char(c).len() > 1 && json_char(c)[0] == '\\',
{
    assert(s.push(c).drop_last() =~= s);
}

} // verus!
