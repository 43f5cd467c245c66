//! What an extension's grants reach.

use vstd::prelude::*;
#[allow(unused_imports)]
use crate::capability::{
    covers_ability, host_covers, path_request, verdict_on, within, Ability, Capability,
    DefaultPolicy, PathScope, ResolutionContext, Standing, Verdict,
};
#[allow(unused_imports)]
use crate::laws::moving::begins;
#[allow(unused_imports)]
use crate::path::{normal_parts, under, PathBuf};
#[allow(unused_imports)]
use crate::text::{lower_of, trim_of};

verus! {

/// Whether a path, resolved, is in a directory, resolved.
pub open spec fn lies_in(path: PathBuf, dir: PathBuf) -> bool {
    begins(normal_parts(path@), normal_parts(dir@))
}

/// The directories that a scope may be used in.
pub open spec fn reaches(scope: PathScope, ctx: ResolutionContext, path: PathBuf) -> bool {
    match scope {
        PathScope::Workspace => exists|i: int|
            0 <= i < ctx.workspace_roots@.len() && lies_in(
                path,
                #[trigger] ctx.workspace_roots@[i],
            ),
        PathScope::ExtensionStorage => ctx.extension_storage is Some && lies_in(
            path,
            ctx.extension_storage->Some_0,
        ),
        PathScope::ExtensionInstall => ctx.extension_install is Some && lies_in(
            path,
            ctx.extension_install->Some_0,
        ),
        PathScope::Subtree { path: root } => lies_in(path, root),
    }
}

proof fn lemma_within(path: PathBuf, dir: PathBuf)
    ensures
        within(path@, dir@) == lies_in(path, dir),
{
    let all = normal_parts(path@);
    let root = normal_parts(dir@);
    if lies_in(path, dir) {
        assert(all.take(root.len() as int) =~= root);
    }
    if under(all, root) {
        assert forall|i: int| 0 <= i < root.len() implies #[trigger] all[i] == root[i] by {
            assert(all.take(root.len() as int)[i] == all[i]);
        }
    }
}

proof fn lemma_scope(granted: PathScope, ctx: ResolutionContext, path: PathBuf)
    ensures
        crate::capability::scope_contains(
            granted@,
            (PathScope::Subtree { path })@,
            ctx@,
        ) == reaches(granted, ctx, path),
{
    let roots = crate::capability::roots_of(granted@, ctx@);
    match granted {
        PathScope::Workspace => {
            let dirs = ctx.workspace_roots@;
            assert forall|i: int| 0 <= i < dirs.len() implies within(path@, #[trigger] roots[i])
                == lies_in(path, dirs[i]) by {
                lemma_within(path, dirs[i]);
            }
            if reaches(granted, ctx, path) {
                let i = choose|i: int| 0 <= i < dirs.len() && lies_in(path, #[trigger] dirs[i]);
                assert(within(path@, roots[i]));
            }
            if crate::capability::within_one(path@, roots) {
                let i = choose|i: int| 0 <= i < roots.len() && within(path@, #[trigger] roots[i]);
                assert(lies_in(path, dirs[i]));
            }
        },
        PathScope::ExtensionStorage => {
            if ctx.extension_storage is Some {
                lemma_within(path, ctx.extension_storage->Some_0);
                assert(roots[0] == ctx.extension_storage->Some_0@);
            }
        },
        PathScope::ExtensionInstall => {
            if ctx.extension_install is Some {
                lemma_within(path, ctx.extension_install->Some_0);
                assert(roots[0] == ctx.extension_install->Some_0@);
            }
        },
        PathScope::Subtree { path: root } => {
            lemma_within(path, root);
            assert(roots[0] == root@);
        },
    }
}

/// A grant of reading covers reading in exactly the directories that its scope stands for now: the
/// open folders, the extension's own storage, its own installation, or the one directory named. A
/// grant of writing covers both, and one of reading never covers writing.
pub proof fn law_a_grant_reaches_its_directories(
    granted: PathScope,
    ctx: ResolutionContext,
    path: PathBuf,
)
    ensures
        covers_ability(
            (Capability::ReadFile { scope: granted })@,
            (Capability::ReadFile { scope: PathScope::Subtree { path } })@,
            ctx@,
        ) == reaches(granted, ctx, path),
        covers_ability(
            (Capability::WriteFile { scope: granted })@,
            (Capability::WriteFile { scope: PathScope::Subtree { path } })@,
            ctx@,
        ) == reaches(granted, ctx, path),
        covers_ability(
            (Capability::WriteFile { scope: granted })@,
            (Capability::ReadFile { scope: PathScope::Subtree { path } })@,
            ctx@,
        ) == reaches(granted, ctx, path),
        !covers_ability(
            (Capability::ReadFile { scope: granted })@,
            (Capability::WriteFile { scope: PathScope::Subtree { path } })@,
            ctx@,
        ),
{
    lemma_scope(granted, ctx, path);
}

/// A scope that is asked for by its name is covered by that scope alone, wherever it stands.
pub proof fn law_a_named_scope_takes_the_same_scope(
    granted: PathScope,
    wanted: PathScope,
    ctx: ResolutionContext,
)
    requires
        !(wanted is Subtree),
    ensures
        covers_ability(
            (Capability::ReadFile { scope: granted })@,
            (Capability::ReadFile { scope: wanted })@,
            ctx@,
        ) == ((granted is Workspace && wanted is Workspace) || (granted is ExtensionStorage
            && wanted is ExtensionStorage) || (granted is ExtensionInstall
            && wanted is ExtensionInstall)),
        covers_ability(
            (Capability::WriteFile { scope: granted })@,
            (Capability::WriteFile { scope: wanted })@,
            ctx@,
        ) == ((granted is Workspace && wanted is Workspace) || (granted is ExtensionStorage
            && wanted is ExtensionStorage) || (granted is ExtensionInstall
            && wanted is ExtensionInstall)),
{
}

/// Programs and variables are covered by name, letter for letter; the clipboard, secrets and the
/// browser each by themselves.
pub proof fn law_everything_else_is_covered_by_name(
    a: String,
    b: String,
    ctx: ResolutionContext,
)
    ensures
        covers_ability(
            (Capability::Process { program: a })@,
            (Capability::Process { program: b })@,
            ctx@,
        ) == (a@ == b@),
        covers_ability((Capability::Env { name: a })@, (Capability::Env { name: b })@, ctx@) == (a@
            == b@),
        !covers_ability(
            (Capability::Process { program: a })@,
            (Capability::Env { name: b })@,
            ctx@,
        ),
        !covers_ability(
            (Capability::Env { name: a })@,
            (Capability::Process { program: b })@,
            ctx@,
        ),
        covers_ability(Capability::Clipboard@, Capability::Clipboard@, ctx@),
        covers_ability(Capability::Secrets@, Capability::Secrets@, ctx@),
        covers_ability(Capability::OpenExternal@, Capability::OpenExternal@, ctx@),
        !covers_ability(Capability::Clipboard@, Capability::Secrets@, ctx@),
        !covers_ability(Capability::Secrets@, Capability::Clipboard@, ctx@),
        !covers_ability(Capability::OpenExternal@, Capability::Secrets@, ctx@),
        !covers_ability(Capability::Secrets@, Capability::OpenExternal@, ctx@),
{
}

/// A host without a wildcard covers itself alone, whatever the case of its letters and whatever
/// white space surrounds it.
pub proof fn law_a_host_covers_itself_alone(granted: String, wanted: String, ctx: ResolutionContext)
    requires
        !({
            let host = lower_of(trim_of(granted@));
            host.len() >= 2 && host[0] == '*' && host[1] == '.'
        }),
    ensures
        covers_ability(
            (Capability::Network { host: granted })@,
            (Capability::Network { host: wanted })@,
            ctx@,
        ) == (lower_of(trim_of(granted@)) == lower_of(trim_of(wanted@))),
{
}

/// A name with something in front of it, and a dot between.
pub open spec fn below(front: Seq<char>, name: Seq<char>) -> Seq<char> {
    front + seq!['.'] + name
}

/// A wildcard covers exactly the names with something in front of the dot and what follows it: not
/// the bare name, and no name that merely ends in the same letters.
pub proof fn law_a_wildcard_covers_what_is_below_it(
    granted: String,
    wanted: String,
    rest: Seq<char>,
    ctx: ResolutionContext,
)
    requires
        lower_of(trim_of(granted@)) == seq!['*', '.'] + rest,
    ensures
        covers_ability(
            (Capability::Network { host: granted })@,
            (Capability::Network { host: wanted })@,
            ctx@,
        ) == exists|front: Seq<char>|
            front.len() > 0 && lower_of(trim_of(wanted@)) == #[trigger] below(front, rest),
{
    let pattern = lower_of(trim_of(granted@));
    let name = lower_of(trim_of(wanted@));
    let dotted = pattern.skip(1);
    assert(dotted =~= seq!['.'] + rest);
    if host_covers(granted@, wanted@) {
        let front = name.take(name.len() - dotted.len());
        assert(name =~= front + dotted);
        assert(name =~= below(front, rest));
    }
    if exists|front: Seq<char>|
        front.len() > 0 && name == #[trigger] below(front, rest) {
        let front = choose|front: Seq<char>|
            front.len() > 0 && name == #[trigger] below(front, rest);
        assert(name.skip(name.len() - dotted.len()) =~= dotted);
    }
}

/// A request passes exactly where the extension declared something that covers it, nothing that was
/// refused covers it, and something that was allowed covers it or the policy allows whatever was
/// declared. It is put to the user exactly where it was declared, nothing was decided about it, and
/// the policy is to ask; and it is put as it was made.
pub proof fn law_when_a_request_passes(standing: Standing, request: Ability)
    ensures
        verdict_on(standing, request) is Allowed <==> {
            &&& exists|i: int|
                0 <= i < standing.declared.len() && covers_ability(
                    #[trigger] standing.declared[i],
                    request,
                    standing.roots,
                )
            &&& forall|i: int|
                0 <= i < standing.grants.denied.len() ==> !covers_ability(
                    #[trigger] standing.grants.denied[i],
                    request,
                    standing.roots,
                )
            &&& standing.policy == DefaultPolicy::Allow || exists|i: int|
                0 <= i < standing.grants.allowed.len() && covers_ability(
                    #[trigger] standing.grants.allowed[i],
                    request,
                    standing.roots,
                )
        },
        verdict_on(standing, request) is NeedsConsent <==> {
            &&& standing.policy == DefaultPolicy::Prompt
            &&& exists|i: int|
                0 <= i < standing.declared.len() && covers_ability(
                    #[trigger] standing.declared[i],
                    request,
                    standing.roots,
                )
            &&& forall|i: int|
                0 <= i < standing.grants.denied.len() ==> !covers_ability(
                    #[trigger] standing.grants.denied[i],
                    request,
                    standing.roots,
                )
            &&& forall|i: int|
                0 <= i < standing.grants.allowed.len() ==> !covers_ability(
                    #[trigger] standing.grants.allowed[i],
                    request,
                    standing.roots,
                )
        },
        verdict_on(standing, request) matches Verdict::NeedsConsent { capability } ==> capability
            == request,
{
}

/// Touching a file is asked for as that file, resolved: for writing where it is written, for
/// reading where it is not.
pub proof fn law_touching_a_file_asks_for_it(write: bool, path: PathBuf, granted: PathScope, ctx:
    ResolutionContext)
    ensures
        covers_ability(
            (Capability::WriteFile { scope: granted })@,
            path_request(write, path@),
            ctx@,
        ) == reaches(granted, ctx, path),
        covers_ability(
            (Capability::ReadFile { scope: granted })@,
            path_request(write, path@),
            ctx@,
        ) == (!write && reaches(granted, ctx, path)),
{
    crate::path::lemma_parts_placed(path.text@);
    crate::path::law_normalise_idempotent(path@);
    lemma_scope(granted, ctx, path);
    let roots = crate::capability::roots_of(granted@, ctx@);
    let resolved = normal_parts(path@);
    assert forall|i: int| 0 <= i < roots.len() implies within(resolved, #[trigger] roots[i])
        == within(path@, roots[i]) by {}
    if crate::capability::within_one(path@, roots) {
        let i = choose|i: int| 0 <= i < roots.len() && within(path@, #[trigger] roots[i]);
        assert(within(resolved, roots[i]));
    }
    if crate::capability::within_one(resolved, roots) {
        let i = choose|i: int| 0 <= i < roots.len() && within(resolved, #[trigger] roots[i]);
        assert(within(path@, roots[i]));
    }
}

} // verus!
