//! The order in which teams, codes and documents are listed: by name.

use vstd::prelude::*;
use vstd::utf8::{encode_utf8, encode_utf8_decode_utf8};

use crate::catalog::{
    code_documents, code_names, codes_names, codes_of, documents_of, structure, team_codes,
    teams_names, CodeDirView, CodeView, DocumentName, TeamDirView, TeamView,
};

verus! {

/// Whether bytes come before other bytes: at the first place where they differ they are less,
/// or they end there.
pub open spec fn bytes_before(a: Seq<u8>, b: Seq<u8>) -> bool
    decreases a.len(),
{
    if b.len() == 0 {
        false
    } else if a.len() == 0 {
        true
    } else if a[0] != b[0] {
        a[0] < b[0]
    } else {
        bytes_before(a.drop_first(), b.drop_first())
    }
}

/// Whether a name comes before another: by its bytes.
pub open spec fn name_before(a: Seq<char>, b: Seq<char>) -> bool {
    bytes_before(encode_utf8(a), encode_utf8(b))
}

/// Of different bytes, one comes before the other, and not the other way round.
proof fn lemma_one_before(a: Seq<u8>, b: Seq<u8>)
    ensures
        bytes_before(a, b) ==> !bytes_before(b, a),
        a == b || bytes_before(a, b) || bytes_before(b, a),
        a == b ==> !bytes_before(a, b),
    decreases a.len(),
{
    if a.len() > 0 && b.len() > 0 {
        lemma_one_before(a.drop_first(), b.drop_first());
        if a[0] == b[0] && a.drop_first() == b.drop_first() {
            assert(a =~= seq![a[0]] + a.drop_first());
            assert(b =~= seq![b[0]] + b.drop_first());
        }
    } else if a.len() == 0 && b.len() == 0 {
        assert(a =~= b);
    }
}

/// What comes before something comes before all that follows it.
proof fn lemma_before_before(a: Seq<u8>, b: Seq<u8>, c: Seq<u8>)
    requires
        bytes_before(a, b),
        bytes_before(b, c),
    ensures
        bytes_before(a, c),
    decreases a.len(),
{
    if a.len() > 0 && a[0] == b[0] && b[0] == c[0] {
        lemma_before_before(a.drop_first(), b.drop_first(), c.drop_first());
    }
}

/// Whether bytes come before other bytes.
fn is_before(a: &Vec<u8>, b: &Vec<u8>) -> (r: bool)
    ensures
        r == bytes_before(a@, b@),
{
    let mut i: usize = 0;
    assert(a@.skip(0) =~= a@);
    assert(b@.skip(0) =~= b@);
    while i < a.len() && i < b.len()
        invariant
            i <= a@.len(),
            i <= b@.len(),
            bytes_before(a@, b@) == bytes_before(a@.skip(i as int), b@.skip(i as int)),
        decreases a.len() - i,
    {
        assert(a@.skip(i as int).drop_first() =~= a@.skip(i + 1));
        assert(b@.skip(i as int).drop_first() =~= b@.skip(i + 1));
        if a[i] != b[i] {
            return a[i] < b[i];
        }
        i = i + 1;
    }
    i < b.len()
}

/// Whether numbers are those below `n`, each once.
pub open spec fn is_rearrangement(order: Seq<usize>, n: nat) -> bool {
    &&& order.len() == n
    &&& forall|i: int| 0 <= i < n ==> #[trigger] order[i] < n
    &&& forall|i: int, j: int| 0 <= i < j < n ==> #[trigger] order[i] != #[trigger] order[j]
}

/// Whether names are in order when they are taken in this order: none comes before one in
/// front of it.
pub open spec fn sorts(order: Seq<usize>, names: Seq<Seq<u8>>) -> bool {
    forall|i: int, j: int|
        0 <= i < j < order.len() ==> !bytes_before(
            names[#[trigger] order[j] as int],
            names[#[trigger] order[i] as int],
        )
}

/// The bytes of some names.
pub open spec fn bytes_view(names: Seq<Vec<u8>>) -> Seq<Seq<u8>> {
    Seq::new(names.len(), |i: int| names[i]@)
}

/// Puts one more number among numbers that are in order.
proof fn lemma_insert(names: Seq<Seq<u8>>, order: Seq<usize>, at: int, n: usize)
    requires
        is_rearrangement(order, n as nat),
        n < names.len(),
        sorts(order, names),
        0 <= at <= order.len(),
        at > 0 ==> !bytes_before(names[n as int], names[order[at - 1] as int]),
        forall|k: int|
            at <= k < order.len() ==> bytes_before(
                names[n as int],
                names[#[trigger] order[k] as int],
            ),
    ensures
        is_rearrangement(order.insert(at, n), (n + 1) as nat),
        sorts(order.insert(at, n), names),
{
    let all = order.insert(at, n);
    let new = names[n as int];
    assert forall|i: int| 0 <= i < all.len() implies #[trigger] all[i] < n + 1 by {
        if i < at {
            assert(all[i] == order[i]);
        } else if i > at {
            assert(all[i] == order[i - 1]);
        }
    }
    assert forall|i: int, j: int| 0 <= i < j < all.len() implies #[trigger] all[i]
        != #[trigger] all[j] && !bytes_before(names[all[j] as int], names[all[i] as int]) by {
        let i0 = if i < at {
            i
        } else {
            i - 1
        };
        let j0 = if j < at {
            j
        } else {
            j - 1
        };
        if i == at {
            assert(all[j] == order[j0]);
            lemma_one_before(new, names[order[j0] as int]);
        } else if j == at {
            assert(all[i] == order[i0]);
            let x = names[order[i0] as int];
            let y = names[order[at - 1] as int];
            if i0 < at - 1 {
                assert(!bytes_before(y, x));
                lemma_one_before(x, y);
                if bytes_before(new, x) && bytes_before(x, y) {
                    lemma_before_before(new, x, y);
                }
            }
        } else {
            assert(all[i] == order[i0] && all[j] == order[j0]);
        }
    }
}

/// The order in which some names are listed: the number of the first one, of the second one,
/// and so on. Each is counted once, and none comes before one in front of it.
pub fn name_order(names: &[Vec<u8>]) -> (r: Vec<usize>)
    ensures
        is_rearrangement(r@, names@.len()),
        sorts(r@, bytes_view(names@)),
{
    let ghost all = bytes_view(names@);
    let mut order: Vec<usize> = Vec::new();
    for n in 0..names.len()
        invariant
            all == bytes_view(names@),
            is_rearrangement(order@, n as nat),
            sorts(order@, all),
    {
        let mut at: usize = order.len();
        while at > 0 && is_before(&names[n], &names[order[at - 1]])
            invariant
                n < names@.len(),
                all == bytes_view(names@),
                is_rearrangement(order@, n as nat),
                at <= order@.len(),
                forall|k: int|
                    at <= k < order@.len() ==> bytes_before(
                        all[n as int],
                        all[#[trigger] order@[k] as int],
                    ),
            decreases at,
        {
            at = at - 1;
        }
        proof {
            lemma_insert(all, order@, at as int, n);
        }
        order.insert(at, n);
    }
    order
}

/// Whether each of some names comes before all that follow it.
pub open spec fn ascending(names: Seq<Seq<char>>) -> bool {
    forall|i: int, j: int|
        0 <= i < j < names.len() ==> name_before(#[trigger] names[i], #[trigger] names[j])
}

/// Names taken in an order.
pub open spec fn arranged(names: Seq<Seq<char>>, order: Seq<usize>) -> Seq<Seq<char>> {
    Seq::new(order.len(), |i: int| names[order[i] as int])
}

/// Different names ascend when they are taken in the order of their bytes.
pub proof fn law_ordered_names_ascend(names: Seq<Seq<char>>, order: Seq<usize>)
    requires
        names.no_duplicates(),
        is_rearrangement(order, names.len()),
        sorts(order, Seq::new(names.len(), |i: int| encode_utf8(names[i]))),
    ensures
        ascending(arranged(names, order)),
{
    let bytes = Seq::new(names.len(), |i: int| encode_utf8(names[i]));
    let all = arranged(names, order);
    assert forall|i: int, j: int| 0 <= i < j < all.len() implies name_before(
        #[trigger] all[i],
        #[trigger] all[j],
    ) by {
        let a = order[i] as int;
        let b = order[j] as int;
        assert(!bytes_before(bytes[b], bytes[a]));
        lemma_one_before(bytes[a], bytes[b]);
        encode_utf8_decode_utf8(names[a]);
        encode_utf8_decode_utf8(names[b]);
    }
}

/// The names of code directories.
pub open spec fn dir_names(codes: Seq<CodeDirView>) -> Seq<Seq<char>> {
    Seq::new(codes.len(), |i: int| codes[i].name)
}

/// Whether the code directories of a team and the files in each ascend by name.
pub open spec fn codes_ascend(codes: Seq<CodeDirView>) -> bool {
    &&& ascending(dir_names(codes))
    &&& forall|i: int|
        0 <= i < codes.len() ==> ((#[trigger] codes[i]).files matches Some(f) ==> ascending(f))
}

/// The names of team directories.
pub open spec fn team_dir_names(teams: Seq<TeamDirView>) -> Seq<Seq<char>> {
    Seq::new(teams.len(), |i: int| teams[i].name)
}

/// Whether a directory tree was listed by name: the teams, the codes of each and the files of
/// each ascend.
pub open spec fn tree_ascends(teams: Seq<TeamDirView>) -> bool {
    &&& ascending(team_dir_names(teams))
    &&& forall|i: int|
        0 <= i < teams.len() ==> ((#[trigger] teams[i]).codes matches Some(c) ==> codes_ascend(c))
}

/// Whether listed codes ascend by name, and their documents. None is without documents.
pub open spec fn code_list_ascends(codes: Seq<CodeView>) -> bool {
    &&& forall|i: int, j: int|
        0 <= i < j < codes.len() ==> name_before(
            (#[trigger] codes[i]).name,
            (#[trigger] codes[j]).name,
        )
    &&& forall|i: int|
        0 <= i < codes.len() ==> (#[trigger] codes[i]).documents.len() > 0 && ascending(
            codes[i].documents,
        )
}

/// Whether listed teams ascend by name, and so does all that is in them. None is without codes.
pub open spec fn team_list_ascends(teams: Seq<TeamView>) -> bool {
    &&& forall|i: int, j: int|
        0 <= i < j < teams.len() ==> name_before(
            (#[trigger] teams[i]).name,
            (#[trigger] teams[j]).name,
        )
    &&& forall|i: int|
        0 <= i < teams.len() ==> (#[trigger] teams[i]).codes.len() > 0 && code_list_ascends(
            teams[i].codes,
        )
}

/// The documents among files that ascend do so too, and are among the files.
proof fn lemma_documents(files: Seq<Seq<char>>)
    requires
        ascending(files),
    ensures
        ascending(documents_of(files)),
        forall|i: int|
            0 <= i < documents_of(files).len() ==> files.contains(
                #[trigger] documents_of(files)[i],
            ),
    decreases files.len(),
{
    if files.len() > 0 {
        let rest = files.drop_last();
        assert forall|i: int, j: int| 0 <= i < j < rest.len() implies name_before(
            #[trigger] rest[i],
            #[trigger] rest[j],
        ) by {
            assert(rest[i] == files[i] && rest[j] == files[j]);
        }
        lemma_documents(rest);
        let before = documents_of(rest);
        let all = documents_of(files);
        assert(files[files.len() - 1] == files.last());
        assert forall|i: int| 0 <= i < before.len() implies files.contains(#[trigger] before[i])
            && name_before(before[i], files.last()) by {
            let k = choose|k: int| 0 <= k < rest.len() && rest[k] == before[i];
            assert(rest.contains(before[i]));
            assert(files[k] == before[i]);
        }
        assert forall|i: int| 0 <= i < all.len() implies files.contains(#[trigger] all[i]) by {
            if i < before.len() {
                assert(all[i] == before[i]);
            }
        }
        assert forall|i: int, j: int| 0 <= i < j < all.len() implies name_before(
            #[trigger] all[i],
            #[trigger] all[j],
        ) by {
            assert(all[i] == before[i]);
            if j < before.len() {
                assert(all[j] == before[j]);
            }
        }
    }
}

/// The codes among directories that ascend do so too, and are among the directories.
proof fn lemma_codes(codes: Seq<CodeDirView>)
    requires
        codes_ascend(codes),
    ensures
        code_list_ascends(codes_of(codes)),
        forall|i: int|
            0 <= i < codes_of(codes).len() ==> dir_names(codes).contains(
                (#[trigger] codes_of(codes)[i]).name,
            ),
    decreases codes.len(),
{
    if codes.len() > 0 {
        let rest = codes.drop_last();
        let names = dir_names(codes);
        assert(dir_names(rest) =~= names.drop_last());
        assert forall|i: int, j: int| 0 <= i < j < rest.len() implies name_before(
            #[trigger] dir_names(rest)[i],
            #[trigger] dir_names(rest)[j],
        ) by {
            assert(dir_names(rest)[i] == names[i] && dir_names(rest)[j] == names[j]);
        }
        assert forall|i: int| 0 <= i < rest.len() implies ((#[trigger] rest[i]).files matches Some(
            f,
        ) ==> ascending(f)) by {
            assert(rest[i] == codes[i]);
        }
        lemma_codes(rest);
        let before = codes_of(rest);
        let all = codes_of(codes);
        let last = codes.last();
        assert(codes[codes.len() - 1] == last);
        assert(names[codes.len() - 1] == last.name);
        if let Some(files) = last.files {
            lemma_documents(files);
        }
        assert(ascending(code_documents(last)));
        assert forall|i: int| 0 <= i < before.len() implies names.contains(
            (#[trigger] before[i]).name,
        ) && name_before(before[i].name, last.name) by {
            assert(dir_names(rest).contains(before[i].name));
            let k = choose|k: int| 0 <= k < rest.len() && dir_names(rest)[k] == before[i].name;
            assert(names[k] == before[i].name);
        }
        assert forall|i: int| 0 <= i < all.len() implies names.contains((#[trigger] all[i]).name)
            && all[i].documents.len() > 0 && ascending(all[i].documents) by {
            if i < before.len() {
                assert(all[i] == before[i]);
            }
        }
        assert forall|i: int, j: int| 0 <= i < j < all.len() implies name_before(
            (#[trigger] all[i]).name,
            (#[trigger] all[j]).name,
        ) by {
            assert(all[i] == before[i]);
            if j < before.len() {
                assert(all[j] == before[j]);
            }
        }
    }
}

/// The teams among directories that ascend do so too, and are among the directories.
proof fn lemma_teams(teams: Seq<TeamDirView>)
    requires
        tree_ascends(teams),
    ensures
        team_list_ascends(structure(teams)),
        forall|i: int|
            0 <= i < structure(teams).len() ==> team_dir_names(teams).contains(
                (#[trigger] structure(teams)[i]).name,
            ),
    decreases teams.len(),
{
    if teams.len() > 0 {
        let rest = teams.drop_last();
        let names = team_dir_names(teams);
        assert(team_dir_names(rest) =~= names.drop_last());
        assert forall|i: int, j: int| 0 <= i < j < rest.len() implies name_before(
            #[trigger] team_dir_names(rest)[i],
            #[trigger] team_dir_names(rest)[j],
        ) by {
            assert(team_dir_names(rest)[i] == names[i] && team_dir_names(rest)[j] == names[j]);
        }
        assert forall|i: int| 0 <= i < rest.len() implies ((#[trigger] rest[i]).codes matches Some(
            c,
        ) ==> codes_ascend(c)) by {
            assert(rest[i] == teams[i]);
        }
        lemma_teams(rest);
        let before = structure(rest);
        let all = structure(teams);
        let last = teams.last();
        assert(teams[teams.len() - 1] == last);
        assert(names[teams.len() - 1] == last.name);
        if let Some(codes) = last.codes {
            lemma_codes(codes);
        }
        assert(code_list_ascends(team_codes(last)));
        assert forall|i: int| 0 <= i < before.len() implies names.contains(
            (#[trigger] before[i]).name,
        ) && name_before(before[i].name, last.name) by {
            assert(team_dir_names(rest).contains(before[i].name));
            let k = choose|k: int| 0 <= k < rest.len() && team_dir_names(rest)[k] == before[i].name;
            assert(names[k] == before[i].name);
        }
        assert forall|i: int| 0 <= i < all.len() implies names.contains((#[trigger] all[i]).name)
            && all[i].codes.len() > 0 && code_list_ascends(all[i].codes) by {
            if i < before.len() {
                assert(all[i] == before[i]);
            }
        }
        assert forall|i: int, j: int| 0 <= i < j < all.len() implies name_before(
            (#[trigger] all[i]).name,
            (#[trigger] all[j]).name,
        ) by {
            assert(all[i] == before[i]);
            if j < before.len() {
                assert(all[j] == before[j]);
            }
        }
    }
}

/// The teams, codes and documents of a directory tree that was listed by name ascend by name;
/// no team is without codes, and no code without documents.
pub proof fn law_structure_ascends(teams: Seq<TeamDirView>)
    requires
        tree_ascends(teams),
    ensures
        team_list_ascends(structure(teams)),
{
    lemma_teams(teams);
}

/// Whether a document comes before another: by its team, then by its code, then by its name.
pub open spec fn document_before(a: DocumentName, b: DocumentName) -> bool {
    ||| name_before(a.team, b.team)
    ||| a.team == b.team && name_before(a.code, b.code)
    ||| a.team == b.team && a.code == b.code && name_before(a.filename, b.filename)
}

/// Whether each of some documents comes before all that follow it.
pub open spec fn documents_ascend(d: Seq<DocumentName>) -> bool {
    forall|i: int, j: int|
        0 <= i < j < d.len() ==> document_before(#[trigger] d[i], #[trigger] d[j])
}

/// Documents that ascend, and behind them others that do and follow all of them.
proof fn lemma_documents_append(a: Seq<DocumentName>, b: Seq<DocumentName>)
    requires
        documents_ascend(a),
        documents_ascend(b),
        forall|i: int, j: int|
            0 <= i < a.len() && 0 <= j < b.len() ==> document_before(
                #[trigger] a[i],
                #[trigger] b[j],
            ),
    ensures
        documents_ascend(a + b),
{
    let all = a + b;
    assert forall|i: int, j: int| 0 <= i < j < all.len() implies document_before(
        #[trigger] all[i],
        #[trigger] all[j],
    ) by {
        if i < a.len() {
            assert(all[i] == a[i]);
        } else {
            assert(all[i] == b[i - a.len()]);
        }
        if j < a.len() {
            assert(all[j] == a[j]);
        } else {
            assert(all[j] == b[j - a.len()]);
        }
    }
}

/// The documents of codes that ascend do so too, and are those of the codes.
proof fn lemma_code_documents(team: Seq<char>, codes: Seq<CodeView>)
    requires
        code_list_ascends(codes),
    ensures
        documents_ascend(codes_names(team, codes)),
        forall|i: int|
            0 <= i < codes_names(team, codes).len() ==> {
                let d = #[trigger] codes_names(team, codes)[i];
                d.team == team && exists|k: int| 0 <= k < codes.len() && codes[k].name == d.code
            },
    decreases codes.len(),
{
    if codes.len() > 0 {
        let rest = codes.drop_last();
        let last = codes.last();
        assert(codes[codes.len() - 1] == last);
        assert forall|i: int, j: int| 0 <= i < j < rest.len() implies name_before(
            (#[trigger] rest[i]).name,
            (#[trigger] rest[j]).name,
        ) by {
            assert(rest[i] == codes[i] && rest[j] == codes[j]);
        }
        assert forall|i: int| 0 <= i < rest.len() implies (#[trigger] rest[i]).documents.len() > 0
            && ascending(rest[i].documents) by {
            assert(rest[i] == codes[i]);
        }
        lemma_code_documents(team, rest);
        let a = codes_names(team, rest);
        let b = code_names(team, last);
        assert forall|i: int| 0 <= i < a.len() implies (#[trigger] a[i]).team == team && (exists|
            k: int,
        |
            0 <= k < codes.len() && codes[k].name == a[i].code) && name_before(
            a[i].code,
            last.name,
        ) by {
            let k = choose|k: int| 0 <= k < rest.len() && rest[k].name == a[i].code;
            assert(codes[k].name == a[i].code);
        }
        assert forall|i: int, j: int| 0 <= i < j < b.len() implies document_before(
            #[trigger] b[i],
            #[trigger] b[j],
        ) by {
            assert(name_before(last.documents[i], last.documents[j]));
        }
        lemma_documents_append(a, b);
        let all = codes_names(team, codes);
        assert forall|i: int| 0 <= i < all.len() implies ({
            let d = #[trigger] all[i];
            d.team == team && exists|k: int| 0 <= k < codes.len() && codes[k].name == d.code
        }) by {
            if i < a.len() {
                assert(all[i] == a[i]);
            } else {
                assert(all[i] == b[i - a.len()]);
                assert(codes[codes.len() - 1].name == all[i].code);
            }
        }
    }
}

/// The documents of teams that ascend do so too, and are those of the teams.
proof fn lemma_team_documents(teams: Seq<TeamView>)
    requires
        team_list_ascends(teams),
    ensures
        documents_ascend(teams_names(teams)),
        forall|i: int|
            0 <= i < teams_names(teams).len() ==> exists|k: int|
                0 <= k < teams.len() && teams[k].name == (#[trigger] teams_names(teams)[i]).team,
    decreases teams.len(),
{
    if teams.len() > 0 {
        let rest = teams.drop_last();
        let last = teams.last();
        assert(teams[teams.len() - 1] == last);
        assert forall|i: int, j: int| 0 <= i < j < rest.len() implies name_before(
            (#[trigger] rest[i]).name,
            (#[trigger] rest[j]).name,
        ) by {
            assert(rest[i] == teams[i] && rest[j] == teams[j]);
        }
        assert forall|i: int| 0 <= i < rest.len() implies (#[trigger] rest[i]).codes.len() > 0
            && code_list_ascends(rest[i].codes) by {
            assert(rest[i] == teams[i]);
        }
        lemma_team_documents(rest);
        lemma_code_documents(last.name, last.codes);
        let a = teams_names(rest);
        let b = codes_names(last.name, last.codes);
        assert forall|i: int| 0 <= i < a.len() implies (exists|k: int|
            0 <= k < teams.len() && teams[k].name == (#[trigger] a[i]).team) && name_before(
            a[i].team,
            last.name,
        ) by {
            let k = choose|k: int| 0 <= k < rest.len() && rest[k].name == a[i].team;
            assert(teams[k].name == a[i].team);
        }
        lemma_documents_append(a, b);
        let all = teams_names(teams);
        assert forall|i: int| 0 <= i < all.len() implies exists|k: int|
            0 <= k < teams.len() && teams[k].name == (#[trigger] all[i]).team by {
            if i < a.len() {
                assert(all[i] == a[i]);
            } else {
                assert(all[i] == b[i - a.len()]);
                assert(teams[teams.len() - 1].name == all[i].team);
            }
        }
    }
}

/// The documents that are searched in a directory tree that was listed by name ascend: by
/// team, then by code, then by name.
pub proof fn law_places_ascend(teams: Seq<TeamDirView>)
    requires
        tree_ascends(teams),
    ensures
        documents_ascend(teams_names(structure(teams))),
{
    law_structure_ascends(teams);
    lemma_team_documents(structure(teams));
}

} // verus!
