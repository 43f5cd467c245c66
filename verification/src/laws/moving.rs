//! What becomes of open tabs when files are renamed or deleted.

use vstd::prelude::*;
#[allow(unused_imports)]
use crate::path::{
    law_joining_adds_components, lemma_parts_placed, normal_parts, well_placed, Part, PathBuf,
};
#[allow(unused_imports)]
use crate::session::files::Operation;
#[allow(unused_imports)]
use crate::session::moves::{all_followed, follows_at, operation_done, tabs_after, Following};
#[allow(unused_imports)]
use crate::session::state::{EditorSettings, Session, Tab};

verus! {

/// Whether a path begins with all the components of another.
pub open spec fn begins(path: Seq<Part>, dir: Seq<Part>) -> bool {
    &&& dir.len() <= path.len()
    &&& forall|i: int| 0 <= i < dir.len() ==> #[trigger] path[i] == dir[i]
}

/// Whether a tab's file is `dir`, or inside it.
pub open spec fn inside_dir<B, S>(tab: Tab<B, S>, dir: PathBuf) -> bool {
    &&& tab.document.path is Some
    &&& begins(normal_parts(tab.document.path->Some_0@), normal_parts(dir@))
}

/// What follows a name in a resolved path are names.
proof fn lemma_names_follow(path: PathBuf, n: int)
    requires
        0 < n <= normal_parts(path@).len(),
        normal_parts(path@)[n - 1] is Name,
    ensures
        well_placed(normal_parts(path@).skip(n)),
        forall|i: int|
            0 <= i < normal_parts(path@).skip(n).len() ==> #[trigger] normal_parts(path@).skip(
                n,
            )[i] is Name,
{
    lemma_parts_placed(path.text@);
    crate::path::law_normal_form(path@);
    crate::path::lemma_normal_placed(path@);
    let all = normal_parts(path@);
    let rest = all.skip(n);
    assert forall|i: int| 0 <= i < rest.len() implies (#[trigger] rest[i] is Name) && match rest[i] {
        Part::Name(name) => crate::path::valid_name(name),
        _ => true,
    } by {
        assert(rest[i] == all[i + n]);
        assert(all[n - 1] is Name);
        assert(!(all[i + n] is Parent));
    }
}

/// Names behind a path stay behind it once it is resolved.
proof fn lemma_names_stay(parts: Seq<Part>, names: Seq<Part>)
    requires
        forall|i: int| 0 <= i < names.len() ==> #[trigger] names[i] is Name,
    ensures
        normal_parts(parts + names) == normal_parts(parts) + names,
    decreases names.len(),
{
    if names.len() == 0 {
        assert(parts + names =~= parts);
        assert(normal_parts(parts) + names =~= normal_parts(parts));
    } else {
        let rest = names.drop_last();
        assert forall|i: int| 0 <= i < rest.len() implies #[trigger] rest[i] is Name by {
            assert(rest[i] == names[i]);
        }
        lemma_names_stay(parts, rest);
        assert((parts + names).drop_last() =~= parts + rest);
        assert(names[names.len() - 1] is Name);
        assert(normal_parts(parts + names) =~= normal_parts(parts) + names);
    }
}

/// Where one tab's file is after a rename.
proof fn lemma_tab_moved<
    B,
    S,
    I: Fn(&PathBuf) -> Option<String>,
    R: Fn(&Option<String>) -> EditorSettings,
>(
    before: Tab<B, S>,
    after: Tab<B, S>,
    from: PathBuf,
    to: PathBuf,
    moved: PathBuf,
    inferred: Option<String>,
    settings: EditorSettings,
    infer: I,
    resolve: R,
)
    requires
        follows_at(before, after, from, to, moved, inferred, settings, infer, resolve),
        normal_parts(from@).len() > 0,
        normal_parts(from@).last() is Name,
    ensures
        !inside_dir(before, from) ==> after == before,
        inside_dir(before, from) ==> {
            let rest = normal_parts(before.document.path->Some_0@).skip(
                normal_parts(from@).len() as int,
            );
            &&& after.document.path is Some
            &&& after.document.path->Some_0@ == to@ + rest
            &&& normal_parts(after.document.path->Some_0@) == normal_parts(to@) + rest
        },
{
    if before.document.path is Some {
        let path = before.document.path->Some_0;
        let all = normal_parts(path@);
        let dir = normal_parts(from@);
        assert(begins(all, dir) == crate::path::under(all, dir)) by {
            if begins(all, dir) {
                assert(all.take(dir.len() as int) =~= dir);
            }
            if crate::path::under(all, dir) {
                assert forall|i: int| 0 <= i < dir.len() implies #[trigger] all[i] == dir[i] by {
                    assert(all.take(dir.len() as int)[i] == all[i]);
                }
            }
        }
        if begins(all, dir) {
            let n = dir.len() as int;
            assert(all[n - 1] == dir[n - 1]);
            lemma_names_follow(path, n);
            let rest = all.skip(n);
            law_joining_adds_components(to.text@, rest);
            lemma_names_stay(to@, rest);
            if rest.len() == 0 {
                assert(to@ + rest =~= to@);
                assert(normal_parts(to@) + rest =~= normal_parts(to@));
            }
        }
    }
}

/// After a rename every tab whose file was what was renamed, or anywhere inside it, is at the new
/// place, under the same names below it as before, however many; every other tab is as it was.
pub proof fn law_tabs_follow_their_files<
    B,
    S,
    M,
    I: Fn(&PathBuf) -> Option<String>,
    R: Fn(&Option<String>) -> EditorSettings,
>(
    before: Session<B, S, M>,
    after: Session<B, S, M>,
    operation: Operation,
    described: Seq<char>,
    infer: I,
    resolve: R,
    i: int,
)
    requires
        operation_done(before, after, operation, described, infer, resolve),
        operation is Rename,
        normal_parts(operation->from@).len() > 0,
        normal_parts(operation->from@).last() is Name,
        0 <= i < before.tabs().len(),
    ensures
        after.tabs().len() == before.tabs().len(),
        !inside_dir(before.tabs()[i], operation->from) ==> after.tabs()[i] == before.tabs()[i],
        inside_dir(before.tabs()[i], operation->from) ==> {
            let rest = normal_parts(before.tabs()[i].document.path->Some_0@).skip(
                normal_parts(operation->from@).len() as int,
            );
            &&& after.tabs()[i].document.path is Some
            &&& after.tabs()[i].document.path->Some_0@ == operation->to@ + rest
            &&& normal_parts(after.tabs()[i].document.path->Some_0@) == normal_parts(
                operation->to@,
            ) + rest
        },
{
    reveal(tabs_after);
    let from = operation->from;
    let to = operation->to;
    let f = choose|f: Following| #[trigger]
        all_followed(before.tabs(), after.tabs(), from, to, infer, resolve, f);
    assert(follows_at(
        before.tabs()[i],
        after.tabs()[i],
        from,
        to,
        f.moved[i],
        f.inferred[i],
        f.settings[i],
        infer,
        resolve,
    ));
    lemma_tab_moved(
        before.tabs()[i],
        after.tabs()[i],
        from,
        to,
        f.moved[i],
        f.inferred[i],
        f.settings[i],
        infer,
        resolve,
    );
}

/// After a rename no tab is left where the files were, unless the new place is inside the old one
/// or around it.
pub proof fn law_no_tab_stays_behind<
    B,
    S,
    M,
    I: Fn(&PathBuf) -> Option<String>,
    R: Fn(&Option<String>) -> EditorSettings,
>(
    before: Session<B, S, M>,
    after: Session<B, S, M>,
    operation: Operation,
    described: Seq<char>,
    infer: I,
    resolve: R,
    i: int,
)
    requires
        operation_done(before, after, operation, described, infer, resolve),
        operation is Rename,
        normal_parts(operation->from@).len() > 0,
        normal_parts(operation->from@).last() is Name,
        !begins(normal_parts(operation->to@), normal_parts(operation->from@)),
        !begins(normal_parts(operation->from@), normal_parts(operation->to@)),
        0 <= i < after.tabs().len(),
    ensures
        !inside_dir(after.tabs()[i], operation->from),
{
    assert(after.tabs().len() == before.tabs().len()) by {
        reveal(tabs_after);
    }
    law_tabs_follow_their_files(before, after, operation, described, infer, resolve, i);
    let from = normal_parts(operation->from@);
    let to = normal_parts(operation->to@);
    if inside_dir(before.tabs()[i], operation->from) && inside_dir(
        after.tabs()[i],
        operation->from,
    ) {
        let now = normal_parts(after.tabs()[i].document.path->Some_0@);
        if from.len() <= to.len() {
            assert forall|k: int| 0 <= k < from.len() implies #[trigger] to[k] == from[k] by {
                assert(now[k] == from[k]);
            }
        } else {
            assert forall|k: int| 0 <= k < to.len() implies #[trigger] from[k] == to[k] by {
                assert(now[k] == from[k]);
            }
        }
    }
}

/// After files are deleted no tab stands for any of them: one that did keeps its text, as changes
/// that were never saved, and every other tab is as it was.
pub proof fn law_tabs_outlive_their_files<
    B,
    S,
    M,
    I: Fn(&PathBuf) -> Option<String>,
    R: Fn(&Option<String>) -> EditorSettings,
>(
    before: Session<B, S, M>,
    after: Session<B, S, M>,
    operation: Operation,
    path: PathBuf,
    described: Seq<char>,
    infer: I,
    resolve: R,
    i: int,
)
    requires
        operation_done(before, after, operation, described, infer, resolve),
        operation matches Operation::Delete { path: gone, .. } ==> gone == path,
        operation matches Operation::DeleteIfEmpty { path: gone, .. } ==> gone == path,
        operation is Delete || operation is DeleteIfEmpty,
        0 <= i < before.tabs().len(),
    ensures
        after.tabs().len() == before.tabs().len(),
        !inside_dir(after.tabs()[i], path),
        !inside_dir(before.tabs()[i], path) ==> after.tabs()[i] == before.tabs()[i],
        inside_dir(before.tabs()[i], path) ==> {
            &&& after.tabs()[i].document.path is None
            &&& after.tabs()[i].document.dirty
            &&& after.tabs()[i].document.body == before.tabs()[i].document.body
            &&& after.tabs()[i].document.language_id == before.tabs()[i].document.language_id
        },
{
    reveal(tabs_after);
    let tab = before.tabs()[i];
    let kept = after.tabs()[i];
    let dir = normal_parts(path@);
    if tab.document.path is Some {
        let all = normal_parts(tab.document.path->Some_0@);
        if begins(all, dir) {
            assert(all.take(dir.len() as int) =~= dir);
        }
        if crate::path::under(all, dir) {
            assert forall|k: int| 0 <= k < dir.len() implies #[trigger] all[k] == dir[k] by {
                assert(all.take(dir.len() as int)[k] == all[k]);
            }
        }
    }
}

/// Making a file or a directory touches no tab.
pub proof fn law_making_files_touches_no_tab<
    B,
    S,
    M,
    I: Fn(&PathBuf) -> Option<String>,
    R: Fn(&Option<String>) -> EditorSettings,
>(
    before: Session<B, S, M>,
    after: Session<B, S, M>,
    operation: Operation,
    described: Seq<char>,
    infer: I,
    resolve: R,
)
    requires
        operation_done(before, after, operation, described, infer, resolve),
        operation is CreateFile || operation is CreateFolder,
    ensures
        after.tabs() == before.tabs(),
        after.tree.undo@ == before.tree.undo@,
{
    reveal(tabs_after);
}

} // verus!
