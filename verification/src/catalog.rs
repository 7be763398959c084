//! Which documents there are: teams, codes, and the workbooks below them.

use vstd::prelude::*;

use crate::order::{
    documents_ascend, law_places_ascend, law_structure_ascends, team_list_ascends, tree_ascends,
};
use crate::search::{hits_view, Hit};
use crate::text::{begins_with, ends_with, has_prefix, has_suffix, texts};

verus! {

/// A directory of a code, or a file in its place. The names in it are missing where it cannot
/// be listed.
pub struct CodeDir {
    pub name: String,
    pub is_dir: bool,
    pub files: Option<Vec<String>>,
}

/// A directory of a team, or a file in its place. What is in it is missing where it cannot be
/// listed.
pub struct TeamDir {
    pub name: String,
    pub is_dir: bool,
    pub codes: Option<Vec<CodeDir>>,
}

/// What a [`CodeDir`] holds.
pub struct CodeDirView {
    pub name: Seq<char>,
    pub is_dir: bool,
    pub files: Option<Seq<Seq<char>>>,
}

/// What a [`TeamDir`] holds.
pub struct TeamDirView {
    pub name: Seq<char>,
    pub is_dir: bool,
    pub codes: Option<Seq<CodeDirView>>,
}

impl View for CodeDir {
    type V = CodeDirView;

    open spec fn view(&self) -> CodeDirView {
        CodeDirView {
            name: self.name@,
            is_dir: self.is_dir,
            files: match self.files {
                Some(f) => Some(texts(f@)),
                None => None,
            },
        }
    }
}

/// What a sequence of code directories holds.
pub open spec fn code_dirs_view(codes: Seq<CodeDir>) -> Seq<CodeDirView> {
    Seq::new(codes.len(), |i: int| codes[i]@)
}

impl View for TeamDir {
    type V = TeamDirView;

    open spec fn view(&self) -> TeamDirView {
        TeamDirView {
            name: self.name@,
            is_dir: self.is_dir,
            codes: match self.codes {
                Some(c) => Some(code_dirs_view(c@)),
                None => None,
            },
        }
    }
}

/// What a sequence of team directories holds.
pub open spec fn team_dirs_view(teams: Seq<TeamDir>) -> Seq<TeamDirView> {
    Seq::new(teams.len(), |i: int| teams[i]@)
}

/// A code with its documents.
pub struct CodeInfo {
    pub name: String,
    pub documents: Vec<String>,
}

/// A team with its codes.
pub struct TeamInfo {
    pub name: String,
    pub codes: Vec<CodeInfo>,
}

/// What a [`CodeInfo`] holds.
pub struct CodeView {
    pub name: Seq<char>,
    pub documents: Seq<Seq<char>>,
}

/// What a [`TeamInfo`] holds.
pub struct TeamView {
    pub name: Seq<char>,
    pub codes: Seq<CodeView>,
}

impl View for CodeInfo {
    type V = CodeView;

    open spec fn view(&self) -> CodeView {
        CodeView { name: self.name@, documents: texts(self.documents@) }
    }
}

/// What a sequence of codes holds.
pub open spec fn codes_view(codes: Seq<CodeInfo>) -> Seq<CodeView> {
    Seq::new(codes.len(), |i: int| codes[i]@)
}

impl View for TeamInfo {
    type V = TeamView;

    open spec fn view(&self) -> TeamView {
        TeamView { name: self.name@, codes: codes_view(self.codes@) }
    }
}

/// What a sequence of teams holds.
pub open spec fn teams_view(teams: Seq<TeamInfo>) -> Seq<TeamView> {
    Seq::new(teams.len(), |i: int| teams[i]@)
}

/// Whether a file is a document: a workbook, and not the lock file of one that is open.
pub open spec fn is_document(name: Seq<char>) -> bool {
    ends_with(name, ".xlsx"@) && !begins_with(name, "~$"@)
}

/// Whether a directory takes part: one that is not hidden.
pub open spec fn takes_part(name: Seq<char>, is_dir: bool) -> bool {
    is_dir && !begins_with(name, "."@)
}

/// The documents among some files.
pub open spec fn documents_of(files: Seq<Seq<char>>) -> Seq<Seq<char>>
    decreases files.len(),
{
    if files.len() == 0 {
        Seq::empty()
    } else if is_document(files.last()) {
        documents_of(files.drop_last()).push(files.last())
    } else {
        documents_of(files.drop_last())
    }
}

/// The documents of a code directory; none where it does not take part or cannot be listed.
pub open spec fn code_documents(c: CodeDirView) -> Seq<Seq<char>> {
    match c.files {
        Some(files) => if takes_part(c.name, c.is_dir) {
            documents_of(files)
        } else {
            Seq::empty()
        },
        None => Seq::empty(),
    }
}

/// The codes with documents among some directories.
pub open spec fn codes_of(codes: Seq<CodeDirView>) -> Seq<CodeView>
    decreases codes.len(),
{
    if codes.len() == 0 {
        Seq::empty()
    } else {
        let before = codes_of(codes.drop_last());
        let documents = code_documents(codes.last());
        if documents.len() > 0 {
            before.push(CodeView { name: codes.last().name, documents })
        } else {
            before
        }
    }
}

/// The codes with documents of a team directory; none where it does not take part or cannot
/// be listed.
pub open spec fn team_codes(t: TeamDirView) -> Seq<CodeView> {
    match t.codes {
        Some(codes) => if takes_part(t.name, t.is_dir) {
            codes_of(codes)
        } else {
            Seq::empty()
        },
        None => Seq::empty(),
    }
}

/// The teams with documents among some directories.
pub open spec fn structure(teams: Seq<TeamDirView>) -> Seq<TeamView>
    decreases teams.len(),
{
    if teams.len() == 0 {
        Seq::empty()
    } else {
        let before = structure(teams.drop_last());
        let codes = team_codes(teams.last());
        if codes.len() > 0 {
            before.push(TeamView { name: teams.last().name, codes })
        } else {
            before
        }
    }
}

/// Whether a file is a document.
fn document_name(name: &str) -> (r: bool)
    ensures
        r == is_document(name@),
{
    has_suffix(name, ".xlsx") && !has_prefix(name, "~$")
}

/// Whether a directory takes part.
fn included(name: &str, is_dir: bool) -> (r: bool)
    ensures
        r == takes_part(name@, is_dir),
{
    is_dir && !has_prefix(name, ".")
}

/// The documents of a code directory.
fn list_documents(code: &CodeDir) -> (r: Vec<String>)
    ensures
        texts(r@) == code_documents(code@),
{
    let mut out: Vec<String> = Vec::new();
    assert(texts(out@) =~= Seq::<Seq<char>>::empty());
    if let Some(files) = &code.files {
        if included(code.name.as_str(), code.is_dir) {
            let ghost all = texts(files@);
            assert(all.take(0) =~= Seq::<Seq<char>>::empty());
            for i in 0..files.len()
                invariant
                    all == texts(files@),
                    texts(out@) == documents_of(all.take(i as int)),
            {
                assert(all.take(i + 1).drop_last() =~= all.take(i as int));
                assert(all.take(i + 1).last() == files@[i as int]@);
                if document_name(files[i].as_str()) {
                    let ghost before = texts(out@);
                    out.push(files[i].clone());
                    assert(texts(out@) =~= before.push(files@[i as int]@));
                }
            }
            assert(all.take(all.len() as int) =~= all);
        }
    }
    out
}

/// The codes with documents of a team directory.
fn list_codes(team: &TeamDir) -> (r: Vec<CodeInfo>)
    ensures
        codes_view(r@) == team_codes(team@),
{
    let mut out: Vec<CodeInfo> = Vec::new();
    assert(codes_view(out@) =~= Seq::<CodeView>::empty());
    if let Some(codes) = &team.codes {
        if included(team.name.as_str(), team.is_dir) {
            let ghost all = code_dirs_view(codes@);
            assert(all.take(0) =~= Seq::<CodeDirView>::empty());
            for i in 0..codes.len()
                invariant
                    all == code_dirs_view(codes@),
                    codes_view(out@) == codes_of(all.take(i as int)),
            {
                assert(all.take(i + 1).drop_last() =~= all.take(i as int));
                assert(all.take(i + 1).last() == codes@[i as int]@);
                let documents = list_documents(&codes[i]);
                if documents.len() > 0 {
                    let ghost before = codes_view(out@);
                    let info = CodeInfo { name: codes[i].name.clone(), documents };
                    let ghost iv = info@;
                    out.push(info);
                    assert(codes_view(out@) =~= before.push(iv));
                }
            }
            assert(all.take(all.len() as int) =~= all);
        }
    }
    out
}

/// The teams, codes and documents in a directory tree. Teams and codes without documents are
/// left out. All of them ascend by name if the tree was listed by name.
pub fn read_structure(teams: &[TeamDir]) -> (r: Vec<TeamInfo>)
    ensures
        teams_view(r@) == structure(team_dirs_view(teams@)),
        tree_ascends(team_dirs_view(teams@)) ==> team_list_ascends(teams_view(r@)),
{
    let mut out: Vec<TeamInfo> = Vec::new();
    let ghost all = team_dirs_view(teams@);
    assert(all.take(0) =~= Seq::<TeamDirView>::empty());
    assert(teams_view(out@) =~= Seq::<TeamView>::empty());
    for i in 0..teams.len()
        invariant
            all == team_dirs_view(teams@),
            teams_view(out@) == structure(all.take(i as int)),
    {
        assert(all.take(i + 1).drop_last() =~= all.take(i as int));
        assert(all.take(i + 1).last() == teams@[i as int]@);
        let codes = list_codes(&teams[i]);
        if codes.len() > 0 {
            let ghost before = teams_view(out@);
            let info = TeamInfo { name: teams[i].name.clone(), codes };
            let ghost iv = info@;
            out.push(info);
            assert(teams_view(out@) =~= before.push(iv));
        }
    }
    assert(all.take(all.len() as int) =~= all);
    proof {
        if tree_ascends(all) {
            law_structure_ascends(all);
        }
    }
    out
}

/// A document in a directory tree: where it stands in the tree that was listed.
pub struct Place {
    pub team: usize,
    pub code: usize,
    pub file: usize,
}

/// A document by its names.
pub struct DocumentName {
    pub team: Seq<char>,
    pub code: Seq<char>,
    pub filename: Seq<char>,
}

/// Whether a place is one of a tree.
pub open spec fn in_tree(teams: Seq<TeamDirView>, p: Place) -> bool {
    &&& p.team < teams.len()
    &&& teams[p.team as int].codes is Some
    &&& p.code < teams[p.team as int].codes->0.len()
    &&& teams[p.team as int].codes->0[p.code as int].files is Some
    &&& p.file < teams[p.team as int].codes->0[p.code as int].files->0.len()
}

/// The names of what stands at a place.
pub open spec fn name_at(teams: Seq<TeamDirView>, p: Place) -> DocumentName {
    let team = teams[p.team as int];
    let code = team.codes->0[p.code as int];
    DocumentName { team: team.name, code: code.name, filename: code.files->0[p.file as int] }
}

/// The names of what stands at some places.
pub open spec fn names_at(teams: Seq<TeamDirView>, places: Seq<Place>) -> Seq<DocumentName> {
    Seq::new(places.len(), |i: int| name_at(teams, places[i]))
}

/// The documents of a code, by their names.
pub open spec fn code_names(team: Seq<char>, code: CodeView) -> Seq<DocumentName> {
    Seq::new(
        code.documents.len(),
        |i: int| DocumentName { team, code: code.name, filename: code.documents[i] },
    )
}

/// The documents of some codes, by their names.
pub open spec fn codes_names(team: Seq<char>, codes: Seq<CodeView>) -> Seq<DocumentName>
    decreases codes.len(),
{
    if codes.len() == 0 {
        Seq::empty()
    } else {
        codes_names(team, codes.drop_last()) + code_names(team, codes.last())
    }
}

/// The documents of some teams, by their names.
pub open spec fn teams_names(teams: Seq<TeamView>) -> Seq<DocumentName>
    decreases teams.len(),
{
    if teams.len() == 0 {
        Seq::empty()
    } else {
        teams_names(teams.drop_last()) + codes_names(teams.last().name, teams.last().codes)
    }
}

/// Whether `places` are `before` and behind it one place in this code for each document.
spec fn adds_documents(
    places: Seq<Place>,
    before: Seq<Place>,
    team: int,
    code: int,
    files: Seq<Seq<char>>,
    documents: Seq<Seq<char>>,
) -> bool {
    &&& places.len() == before.len() + documents.len()
    &&& places.take(before.len() as int) == before
    &&& forall|m: int|
        0 <= m < documents.len() ==> {
            let p = #[trigger] places[before.len() + m];
            p.team == team && p.code == code && p.file < files.len() && files[p.file as int]
                == documents[m]
        }
}

/// Adds the places of the documents of a code directory.
fn add_code(places: &mut Vec<Place>, team: usize, code: usize, dir: &CodeDir)
    ensures
        dir.files is None ==> final(places)@ == old(places)@,
        dir.files matches Some(files) ==> adds_documents(
            final(places)@,
            old(places)@,
            team as int,
            code as int,
            texts(files@),
            code_documents(dir@),
        ),
{
    let ghost before = places@;
    assert(places@.take(before.len() as int) =~= before);
    if let Some(files) = &dir.files {
        if included(dir.name.as_str(), dir.is_dir) {
            let ghost all = texts(files@);
            assert(all.take(0) =~= Seq::<Seq<char>>::empty());
            for i in 0..files.len()
                invariant
                    all == texts(files@),
                    adds_documents(
                        places@,
                        before,
                        team as int,
                        code as int,
                        all,
                        documents_of(all.take(i as int)),
                    ),
            {
                let ghost seen = places@;
                assert(all.take(i + 1).drop_last() =~= all.take(i as int));
                assert(all.take(i + 1).last() == files@[i as int]@);
                if document_name(files[i].as_str()) {
                    places.push(Place { team, code, file: i });
                    proof {
                        let documents = documents_of(all.take(i + 1));
                        assert(places@.take(before.len() as int) =~= seen.take(
                            before.len() as int,
                        ));
                        assert forall|m: int| 0 <= m < documents.len() implies {
                            let p = #[trigger] places@[before.len() + m];
                            p.team == team && p.code == code && p.file < all.len()
                                && all[p.file as int] == documents[m]
                        } by {
                            if m < documents.len() - 1 {
                                assert(places@[before.len() + m] == seen[before.len() + m]);
                            }
                        }
                    }
                }
            }
            assert(all.take(all.len() as int) =~= all);
        }
    }
}

/// What a code directory adds by names.
proof fn lemma_adds_names(
    tree: Seq<TeamDirView>,
    places: Seq<Place>,
    before: Seq<Place>,
    team: int,
    code: int,
)
    requires
        0 <= team < tree.len(),
        tree[team].codes is Some,
        0 <= code < tree[team].codes->0.len(),
        tree[team].codes->0[code].files is Some,
        adds_documents(
            places,
            before,
            team,
            code,
            tree[team].codes->0[code].files->0,
            code_documents(tree[team].codes->0[code]),
        ),
        forall|m: int| 0 <= m < before.len() ==> in_tree(tree, #[trigger] before[m]),
    ensures
        forall|m: int| 0 <= m < places.len() ==> in_tree(tree, #[trigger] places[m]),
        names_at(tree, places) == names_at(tree, before) + code_names(
            tree[team].name,
            CodeView {
                name: tree[team].codes->0[code].name,
                documents: code_documents(tree[team].codes->0[code]),
            },
        ),
{
    let dir = tree[team].codes->0[code];
    let documents = code_documents(dir);
    assert forall|m: int| 0 <= m < places.len() implies in_tree(tree, #[trigger] places[m]) by {
        if m < before.len() {
            assert(places[m] == places.take(before.len() as int)[m]);
            assert(in_tree(tree, before[m]));
        } else {
            assert(places[before.len() + (m - before.len())] == places[m]);
        }
    }
    let more = code_names(tree[team].name, CodeView { name: dir.name, documents });
    assert(names_at(tree, places) =~= names_at(tree, before) + more) by {
        assert forall|m: int| 0 <= m < places.len() implies #[trigger] names_at(tree, places)[m]
            == (names_at(tree, before) + more)[m] by {
            if m < before.len() {
                assert(places[m] == places.take(before.len() as int)[m]);
            } else {
                assert(places[before.len() + (m - before.len())] == places[m]);
            }
        }
    }
}

/// Adds the places of the documents of a team directory.
fn add_team(places: &mut Vec<Place>, team: usize, teams: &[TeamDir])
    requires
        team < teams@.len(),
        forall|m: int|
            0 <= m < old(places)@.len() ==> in_tree(
                team_dirs_view(teams@),
                #[trigger] old(places)@[m],
            ),
    ensures
        forall|m: int|
            0 <= m < final(places)@.len() ==> in_tree(
                team_dirs_view(teams@),
                #[trigger] final(places)@[m],
            ),
        names_at(team_dirs_view(teams@), final(places)@) == names_at(
            team_dirs_view(teams@),
            old(places)@,
        ) + codes_names(teams@[team as int].name@, team_codes(teams@[team as int]@)),
{
    let ghost tree = team_dirs_view(teams@);
    let ghost name = teams@[team as int].name@;
    let ghost start = names_at(tree, places@);
    assert(start + Seq::<DocumentName>::empty() =~= start);
    let dir = &teams[team];
    if let Some(codes) = &dir.codes {
        if included(dir.name.as_str(), dir.is_dir) {
            let ghost all = code_dirs_view(codes@);
            assert(tree[team as int].codes == Some(all));
            assert(all.take(0) =~= Seq::<CodeDirView>::empty());
            for i in 0..codes.len()
                invariant
                    team < teams@.len(),
                    tree == team_dirs_view(teams@),
                    tree[team as int].codes == Some(all),
                    tree[team as int].name == name,
                    all == code_dirs_view(codes@),
                    forall|m: int|
                        0 <= m < places@.len() ==> in_tree(tree, #[trigger] places@[m]),
                    names_at(tree, places@) == start + codes_names(
                        name,
                        codes_of(all.take(i as int)),
                    ),
            {
                let ghost before = places@;
                let ghost seen = codes_of(all.take(i as int));
                assert(all.take(i + 1).drop_last() =~= all.take(i as int));
                assert(all.take(i + 1).last() == codes@[i as int]@);
                add_code(places, team, i, &codes[i]);
                proof {
                    let code = all[i as int];
                    assert(code == codes@[i as int]@);
                    let documents = code_documents(code);
                    let info = CodeView { name: code.name, documents };
                    if code.files is Some {
                        lemma_adds_names(tree, places@, before, team as int, i as int);
                    }
                    if documents.len() > 0 {
                        assert(codes_of(all.take(i + 1)).drop_last() =~= seen);
                        assert(start + (codes_names(name, seen) + code_names(name, info)) =~= start
                            + codes_names(name, seen) + code_names(name, info));
                    } else {
                        assert(code_names(name, info) =~= Seq::<DocumentName>::empty());
                        assert(names_at(tree, before) + Seq::<DocumentName>::empty() =~= names_at(
                            tree,
                            before,
                        ));
                    }
                }
            }
            assert(all.take(all.len() as int) =~= all);
        }
    }
}

/// Where the documents stand in a directory tree, in the order of the teams and codes. They
/// are the documents that [`read_structure`] lists, and ascend like them.
pub fn list_places(teams: &[TeamDir]) -> (r: Vec<Place>)
    ensures
        forall|m: int|
            0 <= m < r@.len() ==> in_tree(team_dirs_view(teams@), #[trigger] r@[m]),
        names_at(team_dirs_view(teams@), r@) == teams_names(structure(team_dirs_view(teams@))),
        tree_ascends(team_dirs_view(teams@)) ==> documents_ascend(
            names_at(team_dirs_view(teams@), r@),
        ),
{
    let mut places: Vec<Place> = Vec::new();
    let ghost tree = team_dirs_view(teams@);
    assert(tree.take(0) =~= Seq::<TeamDirView>::empty());
    assert(names_at(tree, places@) =~= Seq::<DocumentName>::empty());
    for i in 0..teams.len()
        invariant
            tree == team_dirs_view(teams@),
            forall|m: int| 0 <= m < places@.len() ==> in_tree(tree, #[trigger] places@[m]),
            names_at(tree, places@) == teams_names(structure(tree.take(i as int))),
    {
        let ghost before = structure(tree.take(i as int));
        assert(tree.take(i + 1).drop_last() =~= tree.take(i as int));
        assert(tree.take(i + 1).last() == teams@[i as int]@);
        add_team(&mut places, i, teams);
        proof {
            let codes = team_codes(tree[i as int]);
            if codes.len() > 0 {
                assert(structure(tree.take(i + 1)).drop_last() =~= before);
            } else {
                assert(teams_names(before) + Seq::<DocumentName>::empty() =~= teams_names(before));
            }
        }
    }
    assert(tree.take(tree.len() as int) =~= tree);
    proof {
        if tree_ascends(tree) {
            law_places_ascend(tree);
        }
    }
    places
}

/// A hit with the names of its document.
pub struct SearchResult<T = String> {
    pub team: T,
    pub code: T,
    pub filename: T,
    pub sheet: T,
    pub cell: T,
    pub value: T,
}

impl View for SearchResult {
    type V = SearchResult<Seq<char>>;

    open spec fn view(&self) -> SearchResult<Seq<char>> {
        SearchResult {
            team: self.team@,
            code: self.code@,
            filename: self.filename@,
            sheet: self.sheet@,
            cell: self.cell@,
            value: self.value@,
        }
    }
}

/// What a sequence of results holds.
pub open spec fn results_view(results: Seq<SearchResult>) -> Seq<SearchResult<Seq<char>>> {
    Seq::new(results.len(), |i: int| results[i]@)
}

/// The hits in a document with its names.
pub open spec fn labelled(name: DocumentName, hits: Seq<Hit<Seq<char>>>) -> Seq<
    SearchResult<Seq<char>>,
> {
    Seq::new(
        hits.len(),
        |i: int|
            SearchResult {
                team: name.team,
                code: name.code,
                filename: name.filename,
                sheet: hits[i].sheet,
                cell: hits[i].cell,
                value: hits[i].value,
            },
    )
}

/// Adds the hits in a document to the results.
pub fn add_results(
    results: &mut Vec<SearchResult>,
    teams: &[TeamDir],
    place: &Place,
    hits: &Vec<Hit>,
)
    requires
        in_tree(team_dirs_view(teams@), *place),
    ensures
        results_view(final(results)@) == results_view(old(results)@) + labelled(
            name_at(team_dirs_view(teams@), *place),
            hits_view(hits@),
        ),
{
    let ghost tree = team_dirs_view(teams@);
    let ghost name = name_at(tree, *place);
    let ghost all = labelled(name, hits_view(hits@));
    let ghost before = results_view(results@);
    let team = &teams[place.team];
    assert(tree[place.team as int] == team@);
    let codes = match &team.codes {
        Some(c) => c,
        None => {
            return ;
        },
    };
    let code = &codes[place.code];
    assert(team@.codes->0[place.code as int] == code@);
    let files = match &code.files {
        Some(f) => f,
        None => {
            return ;
        },
    };
    let file = &files[place.file];
    assert(code@.files->0[place.file as int] == file@);
    assert(before + all.take(0) =~= before);
    for i in 0..hits.len()
        invariant
            all == labelled(name, hits_view(hits@)),
            name.team == team.name@,
            name.code == code.name@,
            name.filename == file@,
            results_view(results@) == before + all.take(i as int),
    {
        let result = SearchResult {
            team: team.name.clone(),
            code: code.name.clone(),
            filename: file.clone(),
            sheet: hits[i].sheet.clone(),
            cell: hits[i].cell.clone(),
            value: hits[i].value.clone(),
        };
        let ghost seen = results_view(results@);
        assert(result@ == all[i as int]);
        results.push(result);
        assert(results_view(results@) =~= seen.push(all[i as int]));
        assert(seen.push(all[i as int]) =~= before + all.take(i + 1));
    }
    assert(all.take(all.len() as int) =~= all);
}

} // verus!
