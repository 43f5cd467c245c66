//! The capability model that stands between an extension and the machine.
//!
//! 1. **Deny by default.** A capability that the extension's manifest does not declare is refused
//!    and never offered to the user ([`law_deny_by_default`]).
//! 2. **Declaration is a ceiling, not a grant.** A declared capability still needs a decision:
//!    remembered, prompted for, or made by policy ([`law_declaration_is_no_grant`]).
//! 3. **Scopes are checked on the resolved path**, after `..` is collapsed, so access to the
//!    workspace cannot be walked out of ([`law_scope_cannot_be_walked_out_of`]).
//!
//! What this does not defend against is documented on [`Broker::check`].

use vstd::prelude::*;
use crate::path::{normalise, PathBuf};
#[allow(unused_imports)]
use crate::path::{law_normalise_idempotent, lemma_parts_placed, normal_parts, paths_view, render, under, Part};
use crate::text::{chars_of, same, starts_with, ends_with, to_lower, trim, text_of};
#[allow(unused_imports)]
use crate::text::{ends, lower_of, trim_of};

verus! {

/// Where a filesystem capability may reach.
#[derive(Debug)]
pub enum PathScope {
    /// Anywhere inside the open workspace folders.
    Workspace,
    /// The extension's own private storage directory.
    ExtensionStorage,
    /// The extension's own installation directory.
    ExtensionInstall,
    /// A specific subtree the user named.
    Subtree {
        /// The root of the subtree.
        path: PathBuf,
    },
}

/// A [`PathScope`], as a value in contracts.
#[verifier::ext_equal]
pub enum Scope {
    Workspace,
    ExtensionStorage,
    ExtensionInstall,
    Subtree { path: Seq<Part> },
}

impl View for PathScope {
    type V = Scope;

    open spec fn view(&self) -> Scope {
        match self {
            PathScope::Workspace => Scope::Workspace,
            PathScope::ExtensionStorage => Scope::ExtensionStorage,
            PathScope::ExtensionInstall => Scope::ExtensionInstall,
            PathScope::Subtree { path } => Scope::Subtree { path: path@ },
        }
    }
}

impl Clone for PathScope {
    fn clone(&self) -> (r: PathScope)
        ensures
            r == *self,
    {
        match self {
            PathScope::Workspace => PathScope::Workspace,
            PathScope::ExtensionStorage => PathScope::ExtensionStorage,
            PathScope::ExtensionInstall => PathScope::ExtensionInstall,
            PathScope::Subtree { path } => PathScope::Subtree { path: path.clone() },
        }
    }
}

impl PartialEq for PathScope {
    fn eq(&self, other: &PathScope) -> (r: bool) {
        match (self, other) {
            (PathScope::Workspace, PathScope::Workspace) => true,
            (PathScope::ExtensionStorage, PathScope::ExtensionStorage) => true,
            (PathScope::ExtensionInstall, PathScope::ExtensionInstall) => true,
            (PathScope::Subtree { path: a }, PathScope::Subtree { path: b }) => a.same_as(b),
            _ => false,
        }
    }
}

impl Eq for PathScope {

}

impl vstd::std_specs::cmp::PartialEqSpecImpl for PathScope {
    open spec fn obeys_eq_spec() -> bool {
        true
    }

    open spec fn eq_spec(&self, other: &PathScope) -> bool {
        self@ == other@
    }
}

/// Something an extension may ask to have done on its behalf.
///
/// Each variant carries its own bound, so a grant is never "network access" but always "network
/// access to these hosts".
#[derive(Debug)]
pub enum Capability {
    /// Read files within `scope`.
    ReadFile {
        /// The reachable subtree.
        scope: PathScope,
    },
    /// Create, modify or delete files within `scope`.
    WriteFile {
        /// The reachable subtree.
        scope: PathScope,
    },
    /// Open outbound connections to `host`.
    Network {
        /// A hostname, or `*.example.com` for a subdomain wildcard.
        host: String,
    },
    /// Execute `program`.
    Process {
        /// The program name or absolute path.
        program: String,
    },
    /// Read the environment variable `name`.
    Env {
        /// The variable name.
        name: String,
    },
    /// Read and write the system clipboard.
    Clipboard,
    /// Store and retrieve secrets in the user's credential store.
    Secrets,
    /// Open a URI in the user's browser.
    OpenExternal,
}

/// A [`Capability`], as a value in contracts.
#[verifier::ext_equal]
pub enum Ability {
    ReadFile { scope: Scope },
    WriteFile { scope: Scope },
    Network { host: Seq<char> },
    Process { program: Seq<char> },
    Env { name: Seq<char> },
    Clipboard,
    Secrets,
    OpenExternal,
}

impl View for Capability {
    type V = Ability;

    open spec fn view(&self) -> Ability {
        match self {
            Capability::ReadFile { scope } => Ability::ReadFile { scope: scope@ },
            Capability::WriteFile { scope } => Ability::WriteFile { scope: scope@ },
            Capability::Network { host } => Ability::Network { host: host@ },
            Capability::Process { program } => Ability::Process { program: program@ },
            Capability::Env { name } => Ability::Env { name: name@ },
            Capability::Clipboard => Ability::Clipboard,
            Capability::Secrets => Ability::Secrets,
            Capability::OpenExternal => Ability::OpenExternal,
        }
    }
}

/// The abilities of a list of capabilities.
pub open spec fn abilities(list: Seq<Capability>) -> Seq<Ability> {
    Seq::new(list.len(), |i: int| list[i]@)
}

impl Clone for Capability {
    fn clone(&self) -> (r: Capability)
        ensures
            r == *self,
    {
        match self {
            Capability::ReadFile { scope } => Capability::ReadFile { scope: scope.clone() },
            Capability::WriteFile { scope } => Capability::WriteFile { scope: scope.clone() },
            Capability::Network { host } => Capability::Network { host: host.clone() },
            Capability::Process { program } => Capability::Process { program: program.clone() },
            Capability::Env { name } => Capability::Env { name: name.clone() },
            Capability::Clipboard => Capability::Clipboard,
            Capability::Secrets => Capability::Secrets,
            Capability::OpenExternal => Capability::OpenExternal,
        }
    }
}

impl PartialEq for Capability {
    fn eq(&self, other: &Capability) -> (r: bool) {
        match (self, other) {
            (Capability::ReadFile { scope: a }, Capability::ReadFile { scope: b }) => a == b,
            (Capability::WriteFile { scope: a }, Capability::WriteFile { scope: b }) => a == b,
            (Capability::Network { host: a }, Capability::Network { host: b }) => same(
                a.as_str(),
                b.as_str(),
            ),
            (Capability::Process { program: a }, Capability::Process { program: b }) => same(
                a.as_str(),
                b.as_str(),
            ),
            (Capability::Env { name: a }, Capability::Env { name: b }) => same(
                a.as_str(),
                b.as_str(),
            ),
            (Capability::Clipboard, Capability::Clipboard) => true,
            (Capability::Secrets, Capability::Secrets) => true,
            (Capability::OpenExternal, Capability::OpenExternal) => true,
            _ => false,
        }
    }
}

impl Eq for Capability {

}

impl vstd::std_specs::cmp::PartialEqSpecImpl for Capability {
    open spec fn obeys_eq_spec() -> bool {
        true
    }

    open spec fn eq_spec(&self, other: &Capability) -> bool {
        self@ == other@
    }
}

/// The stable identifier of an ability's kind.
pub open spec fn kind_of(ability: Ability) -> Seq<char> {
    match ability {
        Ability::ReadFile { .. } => "readFile"@,
        Ability::WriteFile { .. } => "writeFile"@,
        Ability::Network { .. } => "network"@,
        Ability::Process { .. } => "process"@,
        Ability::Env { .. } => "env"@,
        Ability::Clipboard => "clipboard"@,
        Ability::Secrets => "secrets"@,
        Ability::OpenExternal => "openExternal"@,
    }
}

/// A host name as it is compared: without surrounding white space, in lower case.
pub open spec fn host_key(host: Seq<char>) -> Seq<char> {
    lower_of(trim_of(host))
}

/// Whether a granted host covers a wanted one.
///
/// `*.suffix` covers exactly what ends in `.suffix` with something in front of that dot.
pub open spec fn host_covers(granted: Seq<char>, wanted: Seq<char>) -> bool {
    let pattern = host_key(granted);
    let name = host_key(wanted);
    if pattern.len() >= 2 && pattern[0] == '*' && pattern[1] == '.' {
        let dotted = pattern.skip(1);
        name.len() > dotted.len() && ends(name, dotted)
    } else {
        pattern == name
    }
}

/// Whether `path` is `root` or sits inside it, once both are resolved.
pub open spec fn within(path: Seq<Part>, root: Seq<Part>) -> bool {
    under(normal_parts(path), normal_parts(root))
}

/// The directories the named scopes stand for, as a value in contracts.
pub struct Roots {
    pub workspace: Seq<Seq<Part>>,
    pub storage: Option<Seq<Part>>,
    pub install: Option<Seq<Part>>,
}

/// The roots a scope stands for.
pub open spec fn roots_of(scope: Scope, roots: Roots) -> Seq<Seq<Part>> {
    match scope {
        Scope::Workspace => roots.workspace,
        Scope::ExtensionStorage => match roots.storage {
            Some(path) => seq![path],
            None => Seq::empty(),
        },
        Scope::ExtensionInstall => match roots.install {
            Some(path) => seq![path],
            None => Seq::empty(),
        },
        Scope::Subtree { path } => seq![path],
    }
}

/// Whether `path` sits inside one of `roots`.
pub open spec fn within_one(path: Seq<Part>, roots: Seq<Seq<Part>>) -> bool {
    exists|i: int| 0 <= i < roots.len() && within(path, #[trigger] roots[i])
}

/// Whether a granted scope contains a wanted one.
///
/// A concrete subtree is inside a scope when it sits inside one of the scope's roots; a named
/// scope is inside itself alone.
pub open spec fn scope_contains(granted: Scope, wanted: Scope, roots: Roots) -> bool {
    match wanted {
        Scope::Subtree { path } => within_one(path, roots_of(granted, roots)),
        named => granted == named,
    }
}

/// Whether a grant covers a request.
pub open spec fn covers_ability(granted: Ability, wanted: Ability, roots: Roots) -> bool {
    match (granted, wanted) {
        (Ability::ReadFile { scope: g }, Ability::ReadFile { scope: w }) => scope_contains(
            g,
            w,
            roots,
        ),
        (Ability::WriteFile { scope: g }, Ability::WriteFile { scope: w }) => scope_contains(
            g,
            w,
            roots,
        ),
        (Ability::WriteFile { scope: g }, Ability::ReadFile { scope: w }) => scope_contains(
            g,
            w,
            roots,
        ),
        (Ability::Network { host: g }, Ability::Network { host: w }) => host_covers(g, w),
        (Ability::Process { program: g }, Ability::Process { program: w }) => g == w,
        (Ability::Env { name: g }, Ability::Env { name: w }) => g == w,
        (Ability::Clipboard, Ability::Clipboard) => true,
        (Ability::Secrets, Ability::Secrets) => true,
        (Ability::OpenExternal, Ability::OpenExternal) => true,
        _ => false,
    }
}

/// Whether one of `list` covers `wanted`.
pub open spec fn one_covers(list: Seq<Ability>, wanted: Ability, roots: Roots) -> bool {
    exists|i: int| 0 <= i < list.len() && covers_ability(#[trigger] list[i], wanted, roots)
}

impl Capability {
    /// A short, stable identifier for the kind of capability, used for grouping in the consent
    /// view and for remembering decisions.
    pub fn kind(&self) -> (r: &'static str)
        ensures
            r@ == kind_of(self@),
    {
        match self {
            Capability::ReadFile { .. } => "readFile",
            Capability::WriteFile { .. } => "writeFile",
            Capability::Network { .. } => "network",
            Capability::Process { .. } => "process",
            Capability::Env { .. } => "env",
            Capability::Clipboard => "clipboard",
            Capability::Secrets => "secrets",
            Capability::OpenExternal => "openExternal",
        }
    }

    /// Whether a grant of `self` covers `request`.
    ///
    /// Write access implies read access to the same scope; nothing else widens.
    pub fn covers(&self, request: &Capability, ctx: &ResolutionContext) -> (r: bool)
        ensures
            r == covers_ability(self@, request@, ctx@),
    {
        match (self, request) {
            (
                Capability::ReadFile { scope: granted },
                Capability::ReadFile { scope: wanted },
            ) => scope_covers(granted, wanted, ctx),
            (
                Capability::WriteFile { scope: granted },
                Capability::WriteFile { scope: wanted },
            ) => scope_covers(granted, wanted, ctx),
            (
                Capability::WriteFile { scope: granted },
                Capability::ReadFile { scope: wanted },
            ) => scope_covers(granted, wanted, ctx),
            (
                Capability::Network { host: granted },
                Capability::Network { host: wanted },
            ) => host_matches(granted.as_str(), wanted.as_str()),
            (
                Capability::Process { program: granted },
                Capability::Process { program: wanted },
            ) => same(granted.as_str(), wanted.as_str()),
            (Capability::Env { name: granted }, Capability::Env { name: wanted }) => same(
                granted.as_str(),
                wanted.as_str(),
            ),
            (Capability::Clipboard, Capability::Clipboard) => true,
            (Capability::Secrets, Capability::Secrets) => true,
            (Capability::OpenExternal, Capability::OpenExternal) => true,
            _ => false,
        }
    }
}

/// Whether `granted` contains `wanted` once both are resolved to real paths.
pub fn scope_covers(granted: &PathScope, wanted: &PathScope, ctx: &ResolutionContext) -> (r: bool)
    ensures
        r == scope_contains(granted@, wanted@, ctx@),
{
    match (granted, wanted) {
        (PathScope::Workspace, PathScope::Workspace) => true,
        (PathScope::ExtensionStorage, PathScope::ExtensionStorage) => true,
        (PathScope::ExtensionInstall, PathScope::ExtensionInstall) => true,
        (broad, PathScope::Subtree { path: wanted }) => {
            let roots: Vec<PathBuf> = ctx.roots_for(broad);
            within_any_root(wanted, &roots)
        },
        _ => false,
    }
}

/// Whether `path` sits inside one of `roots`.
fn within_any_root(path: &PathBuf, roots: &Vec<PathBuf>) -> (r: bool)
    ensures
        r == within_one(path@, paths_view(roots@)),
{
    let mut i: usize = 0;
    while i < roots.len()
        invariant
            i <= roots@.len(),
            forall|j: int| 0 <= j < i ==> !within(path@, #[trigger] paths_view(roots@)[j]),
        decreases roots@.len() - i,
    {
        if is_within(path, &roots[i]) {
            assert(within(path@, paths_view(roots@)[i as int]));
            return true;
        }
        i = i + 1;
    }
    false
}

/// Hostname matching with a single leading-wildcard form.
///
/// `*.example.com` covers `api.example.com` but not `example.com` itself, and never
/// `notexample.com`.
pub fn host_matches(granted: &str, wanted: &str) -> (r: bool)
    ensures
        r == host_covers(granted@, wanted@),
{
    let granted_trimmed: String = trim(granted);
    let wanted_trimmed: String = trim(wanted);
    let pattern: String = to_lower(granted_trimmed.as_str());
    let name: String = to_lower(wanted_trimmed.as_str());
    let chars: Vec<char> = chars_of(pattern.as_str());
    if chars.len() >= 2 && chars[0] == '*' && chars[1] == '.' {
        let dotted: String = text_of(&chars, 1, chars.len());
        assert(dotted@ =~= pattern@.skip(1));
        let name_chars: Vec<char> = chars_of(name.as_str());
        return name_chars.len() > chars.len() - 1 && ends_with(name.as_str(), dotted.as_str());
    }
    same(pattern.as_str(), name.as_str())
}

/// Collapses `.` and `..` without touching the filesystem.
pub fn normalize(path: &PathBuf) -> (r: PathBuf)
    ensures
        r@ == normal_parts(path@),
        r.text@ == render(normal_parts(path@)),
{
    normalise(path)
}

/// Whether `path` is `root` or sits inside it, comparing whole components.
///
/// Comparing components is what stops `/workspace-secrets` from passing as a child of
/// `/workspace`.
pub fn is_within(path: &PathBuf, root: &PathBuf) -> (r: bool)
    ensures
        r == within(path@, root@),
{
    let path: PathBuf = normalize(path);
    let root: PathBuf = normalize(root);
    path.starts_with(&root)
}

/// The concrete directories the named scopes resolve to right now.
#[derive(Debug, Clone)]
pub struct ResolutionContext {
    /// The open workspace folders.
    pub workspace_roots: Vec<PathBuf>,
    /// The extension's private storage directory.
    pub extension_storage: Option<PathBuf>,
    /// The extension's installation directory.
    pub extension_install: Option<PathBuf>,
}

/// The components of an optional path.
pub open spec fn path_view(path: Option<PathBuf>) -> Option<Seq<Part>> {
    match path {
        Some(p) => Some(p@),
        None => None,
    }
}

impl View for ResolutionContext {
    type V = Roots;

    open spec fn view(&self) -> Roots {
        Roots {
            workspace: paths_view(self.workspace_roots@),
            storage: path_view(self.extension_storage),
            install: path_view(self.extension_install),
        }
    }
}

impl Default for ResolutionContext {
    fn default() -> (r: ResolutionContext)
        ensures
            r@.workspace.len() == 0,
            r@.storage is None,
            r@.install is None,
    {
        ResolutionContext {
            workspace_roots: Vec::new(),
            extension_storage: None,
            extension_install: None,
        }
    }
}

/// A copy of a list of paths.
pub fn copy_paths(list: &Vec<PathBuf>) -> (r: Vec<PathBuf>)
    ensures
        r@ == list@,
{
    let mut r: Vec<PathBuf> = Vec::new();
    let mut i: usize = 0;
    while i < list.len()
        invariant
            i <= list@.len(),
            r@ == list@.take(i as int),
        decreases list@.len() - i,
    {
        r.push(list[i].clone());
        i = i + 1;
        assert(r@ =~= list@.take(i as int));
    }
    assert(r@ =~= list@);
    r
}

/// The path as a list of one, or the empty list.
fn as_list(path: &Option<PathBuf>) -> (r: Vec<PathBuf>)
    ensures
        paths_view(r@) == match path_view(*path) {
            Some(p) => seq![p],
            None => Seq::empty(),
        },
{
    let mut r: Vec<PathBuf> = Vec::new();
    if let Some(p) = path {
        r.push(p.clone());
        assert(paths_view(r@) =~= seq![p@]);
    } else {
        assert(paths_view(r@) =~= Seq::empty());
    }
    r
}

impl ResolutionContext {
    /// The roots a scope currently stands for.
    pub fn roots_for(&self, scope: &PathScope) -> (r: Vec<PathBuf>)
        ensures
            paths_view(r@) == roots_of(scope@, self@),
    {
        match scope {
            PathScope::Workspace => copy_paths(&self.workspace_roots),
            PathScope::ExtensionStorage => as_list(&self.extension_storage),
            PathScope::ExtensionInstall => as_list(&self.extension_install),
            PathScope::Subtree { path } => {
                let mut r: Vec<PathBuf> = Vec::new();
                r.push(path.clone());
                assert(paths_view(r@) =~= seq![path@]);
                r
            },
        }
    }
}

/// What the user (or policy) decided about a capability.
#[derive(Debug, Clone, Copy, PartialEq, Eq, Structural)]
pub enum Decision {
    /// Permitted.
    Allow,
    /// Refused.
    Deny,
}

/// What to do about a declared capability with no remembered decision.
#[derive(Debug, Clone, Copy, PartialEq, Eq, Structural)]
pub enum DefaultPolicy {
    /// Ask the user once, then remember.
    Prompt,
    /// Refuse without asking. The right setting for shared machines, where there is no one at
    /// the keyboard to make a judgement.
    Deny,
    /// Allow anything the manifest declared without asking: declaration is then the only check.
    Allow,
}

impl Default for DefaultPolicy {
    fn default() -> (r: DefaultPolicy)
        ensures
            r == DefaultPolicy::Prompt,
    {
        DefaultPolicy::Prompt
    }
}

/// The setting that chooses what happens to a declared capability nobody has decided about yet.
pub const DEFAULT_POLICY_KEY: &'static str = "extensions.permissions.default";

/// The policy a setting's text names.
pub open spec fn policy_of(text: Seq<char>) -> Option<DefaultPolicy> {
    if text == "prompt"@ {
        Some(DefaultPolicy::Prompt)
    } else if text == "deny"@ {
        Some(DefaultPolicy::Deny)
    } else if text == "allow"@ {
        Some(DefaultPolicy::Allow)
    } else {
        None
    }
}

impl DefaultPolicy {
    /// Parses the `extensions.permissions.default` setting.
    pub fn parse(text: &str) -> (r: Option<DefaultPolicy>)
        ensures
            r == policy_of(text@),
    {
        if same(text, "prompt") {
            Some(DefaultPolicy::Prompt)
        } else if same(text, "deny") {
            Some(DefaultPolicy::Deny)
        } else if same(text, "allow") {
            Some(DefaultPolicy::Allow)
        } else {
            None
        }
    }
}

/// The outcome of a capability check.
#[derive(Debug, Clone, PartialEq, Eq)]
pub enum CheckResult {
    /// The extension may proceed.
    Allowed,
    /// The extension may not proceed.
    Denied {
        /// Why, in terms the user can act on.
        reason: DenyReason,
    },
    /// The user must be asked before the operation can proceed.
    NeedsConsent {
        /// The capability to ask about.
        capability: Capability,
    },
}

/// A [`CheckResult`], as a value in contracts.
#[verifier::ext_equal]
pub enum Verdict {
    Allowed,
    Denied { reason: DenyReason },
    NeedsConsent { capability: Ability },
}

impl View for CheckResult {
    type V = Verdict;

    open spec fn view(&self) -> Verdict {
        match self {
            CheckResult::Allowed => Verdict::Allowed,
            CheckResult::Denied { reason } => Verdict::Denied { reason: *reason },
            CheckResult::NeedsConsent { capability } => Verdict::NeedsConsent {
                capability: capability@,
            },
        }
    }
}

/// Why a capability check failed.
#[derive(Debug, Clone, Copy, PartialEq, Eq, Structural)]
pub enum DenyReason {
    /// The manifest never declared anything covering the request.
    Undeclared,
    /// The user previously refused.
    UserDenied,
    /// Policy refuses without asking.
    PolicyDenied,
    /// The path resolved outside every granted scope.
    OutsideScope,
}

/// What a refusal says.
pub open spec fn reason_text(reason: DenyReason) -> Seq<char> {
    match reason {
        DenyReason::Undeclared => "the extension's manifest does not declare this capability"@,
        DenyReason::UserDenied => "the user denied this capability"@,
        DenyReason::PolicyDenied => "`extensions.permissions.default` is set to deny"@,
        DenyReason::OutsideScope => "the path is outside every granted scope"@,
    }
}

impl DenyReason {
    /// What the refusal says.
    pub fn message(&self) -> (r: &'static str)
        ensures
            r@ == reason_text(*self),
    {
        match self {
            DenyReason::Undeclared => "the extension's manifest does not declare this capability",
            DenyReason::UserDenied => "the user denied this capability",
            DenyReason::PolicyDenied => "`extensions.permissions.default` is set to deny",
            DenyReason::OutsideScope => "the path is outside every granted scope",
        }
    }
}

/// Remembered decisions for one extension.
#[derive(Debug)]
pub struct GrantStore {
    /// Capabilities the user has allowed.
    pub allowed: Vec<Capability>,
    /// Capabilities the user has refused.
    pub denied: Vec<Capability>,
}

/// A [`GrantStore`], as a value in contracts.
#[verifier::ext_equal]
pub struct Grants {
    pub allowed: Seq<Ability>,
    pub denied: Seq<Ability>,
}

impl View for GrantStore {
    type V = Grants;

    open spec fn view(&self) -> Grants {
        Grants { allowed: abilities(self.allowed@), denied: abilities(self.denied@) }
    }
}

impl Default for GrantStore {
    fn default() -> (r: GrantStore)
        ensures
            r@.allowed.len() == 0,
            r@.denied.len() == 0,
    {
        GrantStore { allowed: Vec::new(), denied: Vec::new() }
    }
}

impl Clone for GrantStore {
    fn clone(&self) -> (r: GrantStore)
        ensures
            r@ == self@,
            r.allowed@ == self.allowed@,
            r.denied@ == self.denied@,
    {
        GrantStore {
            allowed: copy_capabilities(&self.allowed),
            denied: copy_capabilities(&self.denied),
        }
    }
}

/// A copy of a list of capabilities.
pub fn copy_capabilities(list: &Vec<Capability>) -> (r: Vec<Capability>)
    ensures
        r@ == list@,
{
    let mut r: Vec<Capability> = Vec::new();
    let mut i: usize = 0;
    while i < list.len()
        invariant
            i <= list@.len(),
            r@ == list@.take(i as int),
        decreases list@.len() - i,
    {
        r.push(list[i].clone());
        i = i + 1;
        assert(r@ =~= list@.take(i as int));
    }
    assert(r@ =~= list@);
    r
}

/// `list` without every item equal to `item`, in the same order.
pub open spec fn without(list: Seq<Ability>, item: Ability) -> Seq<Ability>
    decreases list.len(),
{
    if list.len() == 0 {
        list
    } else if list.last() == item {
        without(list.drop_last(), item)
    } else {
        without(list.drop_last(), item).push(list.last())
    }
}

/// `list` with `item` at its end, unless it holds it already.
pub open spec fn with_item(list: Seq<Ability>, item: Ability) -> Seq<Ability> {
    if list.contains(item) {
        list
    } else {
        list.push(item)
    }
}

/// The grants once a decision is remembered.
pub open spec fn remembered(grants: Grants, item: Ability, decision: Decision) -> Grants {
    match decision {
        Decision::Allow => Grants {
            allowed: with_item(grants.allowed, item),
            denied: without(grants.denied, item),
        },
        Decision::Deny => Grants {
            allowed: without(grants.allowed, item),
            denied: with_item(grants.denied, item),
        },
    }
}

/// The grants once a decision is forgotten.
pub open spec fn forgotten(grants: Grants, item: Ability) -> Grants {
    Grants { allowed: without(grants.allowed, item), denied: without(grants.denied, item) }
}

/// Drops every capability equal to `item`.
fn drop_item(list: &Vec<Capability>, item: &Capability) -> (r: Vec<Capability>)
    ensures
        abilities(r@) == without(abilities(list@), item@),
{
    let mut r: Vec<Capability> = Vec::new();
    let mut i: usize = 0;
    assert(abilities(r@) =~= without(abilities(list@.take(0)), item@));
    while i < list.len()
        invariant
            i <= list@.len(),
            abilities(r@) == without(abilities(list@.take(i as int)), item@),
        decreases list@.len() - i,
    {
        let ghost before = r@;
        proof {
            let now = abilities(list@.take(i + 1));
            assert(now.drop_last() =~= abilities(list@.take(i as int)));
            assert(now.last() == list@[i as int]@);
        }
        if list[i] != *item {
            r.push(list[i].clone());
            assert(abilities(r@) =~= abilities(before).push(list@[i as int]@));
        }
        i = i + 1;
    }
    assert(list@.take(list@.len() as int) =~= list@);
    r
}

/// Whether the list holds a capability equal to `item`.
fn holds(list: &Vec<Capability>, item: &Capability) -> (r: bool)
    ensures
        r == abilities(list@).contains(item@),
{
    let mut i: usize = 0;
    while i < list.len()
        invariant
            i <= list@.len(),
            forall|j: int| 0 <= j < i ==> abilities(list@)[j] != item@,
        decreases list@.len() - i,
    {
        if list[i] == *item {
            assert(abilities(list@)[i as int] == item@);
            return true;
        }
        i = i + 1;
    }
    false
}

/// Puts `item` at the end of the list, unless it is there already.
fn add_item(list: &mut Vec<Capability>, item: Capability)
    ensures
        abilities(final(list)@) == with_item(abilities(old(list)@), item@),
{
    if !holds(list, &item) {
        let ghost before = list@;
        let ghost added = item@;
        list.push(item);
        assert(abilities(list@) =~= abilities(before).push(added));
    }
}

/// What an extension declared, what was decided about it, and what the scopes stand for.
pub struct Standing {
    pub declared: Seq<Ability>,
    pub grants: Grants,
    pub policy: DefaultPolicy,
    pub roots: Roots,
}

/// What happens to `request`.
///
/// A remembered refusal outranks everything, a broader allow granted earlier included. The
/// declaration is looked at before the grants, so that a grant for a capability the extension has
/// since dropped from its manifest is of no use.
pub open spec fn verdict_on(standing: Standing, request: Ability) -> Verdict {
    if one_covers(standing.grants.denied, request, standing.roots) {
        Verdict::Denied { reason: DenyReason::UserDenied }
    } else if !one_covers(standing.declared, request, standing.roots) {
        Verdict::Denied { reason: DenyReason::Undeclared }
    } else if one_covers(standing.grants.allowed, request, standing.roots) {
        Verdict::Allowed
    } else {
        match standing.policy {
            DefaultPolicy::Allow => Verdict::Allowed,
            DefaultPolicy::Deny => Verdict::Denied { reason: DenyReason::PolicyDenied },
            DefaultPolicy::Prompt => Verdict::NeedsConsent { capability: request },
        }
    }
}

/// The ability that touching `path` takes.
pub open spec fn path_request(write: bool, path: Seq<Part>) -> Ability {
    let scope = Scope::Subtree { path: normal_parts(path) };
    if write {
        Ability::WriteFile { scope }
    } else {
        Ability::ReadFile { scope }
    }
}

/// Whether one of `list` covers `request`.
fn any_covers(list: &Vec<Capability>, request: &Capability, ctx: &ResolutionContext) -> (r: bool)
    ensures
        r == one_covers(abilities(list@), request@, ctx@),
{
    let mut i: usize = 0;
    while i < list.len()
        invariant
            i <= list@.len(),
            forall|j: int|
                0 <= j < i ==> !covers_ability(#[trigger] abilities(list@)[j], request@, ctx@),
        decreases list@.len() - i,
    {
        if list[i].covers(request, ctx) {
            assert(covers_ability(abilities(list@)[i as int], request@, ctx@));
            return true;
        }
        i = i + 1;
    }
    false
}

/// Checks capability requests for a single extension.
#[derive(Debug, Clone)]
pub struct Broker {
    declared: Vec<Capability>,
    grants: GrantStore,
    policy: DefaultPolicy,
    context: ResolutionContext,
}

impl View for Broker {
    type V = Standing;

    closed spec fn view(&self) -> Standing {
        Standing {
            declared: abilities(self.declared@),
            grants: self.grants@,
            policy: self.policy,
            roots: self.context@,
        }
    }
}

impl Broker {
    /// Builds a broker for an extension.
    pub fn new(
        declared: Vec<Capability>,
        grants: GrantStore,
        policy: DefaultPolicy,
        context: ResolutionContext,
    ) -> (r: Broker)
        ensures
            r@ == (Standing {
                declared: abilities(declared@),
                grants: grants@,
                policy,
                roots: context@,
            }),
    {
        Broker { declared, grants, policy, context }
    }

    /// The capabilities the manifest declared.
    pub fn declared(&self) -> (r: &Vec<Capability>)
        ensures
            abilities(r@) == self@.declared,
    {
        &self.declared
    }

    /// The remembered decisions.
    pub fn grants(&self) -> (r: &GrantStore)
        ensures
            r@ == self@.grants,
    {
        &self.grants
    }

    /// Records the user's answer to a consent prompt.
    pub fn remember(&mut self, capability: Capability, decision: Decision)
        ensures
            final(self)@ == (Standing {
                grants: remembered(old(self)@.grants, capability@, decision),
                ..old(self)@
            }),
    {
        match decision {
            Decision::Allow => {
                self.grants.denied = drop_item(&self.grants.denied, &capability);
                add_item(&mut self.grants.allowed, capability);
            },
            Decision::Deny => {
                self.grants.allowed = drop_item(&self.grants.allowed, &capability);
                add_item(&mut self.grants.denied, capability);
            },
        }
    }

    /// Forgets a decision, so the next request covered by it asks again.
    ///
    /// Both lists, because a decision is one answer: forgetting it in one place while remembering
    /// it in the other would leave the old answer standing.
    pub fn forget(&mut self, capability: &Capability)
        ensures
            final(self)@ == (Standing {
                grants: forgotten(old(self)@.grants, capability@),
                ..old(self)@
            }),
    {
        self.grants.allowed = drop_item(&self.grants.allowed, capability);
        self.grants.denied = drop_item(&self.grants.denied, capability);
    }

    /// Decides what happens to `request`.
    ///
    /// Path scopes are enforced lexically. A symlink inside the workspace that points outside it
    /// passes this check, so callers that touch the filesystem must verify again with the
    /// resolved real path ([`Broker::check_resolved_path`]) before opening anything. The check
    /// also says nothing about how much processor time or memory the extension takes.
    pub fn check(&self, request: &Capability) -> (r: CheckResult)
        ensures
            r@ == verdict_on(self@, request@),
    {
        if any_covers(&self.grants.denied, request, &self.context) {
            return CheckResult::Denied { reason: DenyReason::UserDenied };
        }
        if !any_covers(&self.declared, request, &self.context) {
            return CheckResult::Denied { reason: DenyReason::Undeclared };
        }
        if any_covers(&self.grants.allowed, request, &self.context) {
            return CheckResult::Allowed;
        }
        match self.policy {
            DefaultPolicy::Allow => CheckResult::Allowed,
            DefaultPolicy::Deny => CheckResult::Denied { reason: DenyReason::PolicyDenied },
            DefaultPolicy::Prompt => CheckResult::NeedsConsent { capability: request.clone() },
        }
    }

    /// Checks a filesystem request against the path it actually resolves to.
    ///
    /// `real_path` is the canonicalised path: the caller supplies it, because finding it takes
    /// the filesystem.
    pub fn check_resolved_path(&self, write: bool, real_path: &PathBuf) -> (r: CheckResult)
        ensures
            r@ == verdict_on(self@, path_request(write, real_path@)),
    {
        let scope: PathScope = PathScope::Subtree { path: normalize(real_path) };
        let request: Capability = if write {
            Capability::WriteFile { scope }
        } else {
            Capability::ReadFile { scope }
        };
        self.check(&request)
    }
}

// ---------------------------------------------------------------------------
// Laws
// ---------------------------------------------------------------------------

/// Deny by default: a request that nothing in the manifest covers is denied, whatever was granted
/// and whatever the policy, and is never put to the user.
pub proof fn law_deny_by_default(standing: Standing, request: Ability)
    requires
        !one_covers(standing.declared, request, standing.roots),
    ensures
        verdict_on(standing, request) is Denied,
{
}

/// Declaration is no grant: under the prompting policy a declared request is allowed only if
/// something remembered allows it.
pub proof fn law_declaration_is_no_grant(standing: Standing, request: Ability)
    requires
        standing.policy == DefaultPolicy::Prompt,
        verdict_on(standing, request) is Allowed,
    ensures
        one_covers(standing.grants.allowed, request, standing.roots),
        one_covers(standing.declared, request, standing.roots),
{
}

/// A refusal outranks every allow: what a remembered refusal covers is denied.
pub proof fn law_refusal_outranks_allow(standing: Standing, request: Ability)
    requires
        one_covers(standing.grants.denied, request, standing.roots),
    ensures
        verdict_on(standing, request) == (Verdict::Denied { reason: DenyReason::UserDenied }),
{
}

/// Only an undecided request is put to the user, and it is put as it was made.
pub proof fn law_consent_asks_for_the_request(standing: Standing, request: Ability)
    requires
        verdict_on(standing, request) is NeedsConsent,
    ensures
        verdict_on(standing, request)->capability == request,
        !one_covers(standing.grants.denied, request, standing.roots),
        !one_covers(standing.grants.allowed, request, standing.roots),
{
}

/// Write access implies read access to the same scope.
pub proof fn law_write_implies_read(granted: Scope, wanted: Scope, roots: Roots)
    requires
        covers_ability(
            Ability::WriteFile { scope: granted },
            Ability::WriteFile { scope: wanted },
            roots,
        ),
    ensures
        covers_ability(
            Ability::WriteFile { scope: granted },
            Ability::ReadFile { scope: wanted },
            roots,
        ),
{
}

/// Nothing else widens: apart from writing covering reading, a grant covers its own kind alone.
pub proof fn law_nothing_else_widens(granted: Ability, wanted: Ability, roots: Roots)
    requires
        covers_ability(granted, wanted, roots),
    ensures
        kind_of(granted) == kind_of(wanted) || (granted is WriteFile && wanted is ReadFile),
{
}

/// Access to a scope cannot be walked out of: a path is covered only where, with every `..`
/// collapsed, it begins with the whole of one of the scope's roots.
pub proof fn law_scope_cannot_be_walked_out_of(scope: Scope, path: Seq<Part>, roots: Roots)
    requires
        covers_ability(
            Ability::ReadFile { scope },
            Ability::ReadFile { scope: Scope::Subtree { path } },
            roots,
        ),
    ensures
        exists|i: int|
            0 <= i < roots_of(scope, roots).len() && under(
                normal_parts(path),
                normal_parts(#[trigger] roots_of(scope, roots)[i]),
            ),
{
}

proof fn lemma_without(list: Seq<Ability>, item: Ability)
    ensures
        forall|x: Ability|
            #[trigger] without(list, item).contains(x) <==> list.contains(x) && x != item,
        without(list, item).len() <= list.len(),
    decreases list.len(),
{
    if list.len() > 0 {
        let rest = list.drop_last();
        lemma_without(rest, item);
        let w = without(rest, item);
        assert forall|x: Ability|
            #[trigger] without(list, item).contains(x) <==> list.contains(x) && x != item by {
            if list.contains(x) && x != item {
                let k = choose|k: int| 0 <= k < list.len() && list[k] == x;
                if k < rest.len() {
                    assert(rest[k] == x);
                    assert(rest.contains(x));
                    assert(without(rest, item).contains(x));
                    let m = choose|m: int| 0 <= m < w.len() && w[m] == x;
                    assert(without(list, item)[m] == x);
                } else {
                    assert(without(list, item).last() == x);
                    assert(without(list, item)[without(list, item).len() - 1] == x);
                }
            }
            if without(list, item).contains(x) {
                let m = choose|m: int|
                    0 <= m < without(list, item).len() && without(list, item)[m] == x;
                if m < w.len() {
                    assert(w[m] == x);
                    assert(w.contains(x));
                    assert(rest.contains(x));
                    let k = choose|k: int| 0 <= k < rest.len() && rest[k] == x;
                    assert(list[k] == x);
                } else {
                    assert(list[list.len() - 1] == x);
                }
            }
        }
    }
}

/// A remembered answer replaces the opposite one: afterwards the capability stands in the list of
/// the answer and not in the other.
pub proof fn law_an_answer_replaces_its_opposite(grants: Grants, item: Ability, decision: Decision)
    ensures
        decision == Decision::Allow ==> remembered(grants, item, decision).allowed.contains(item)
            && !remembered(grants, item, decision).denied.contains(item),
        decision == Decision::Deny ==> remembered(grants, item, decision).denied.contains(item)
            && !remembered(grants, item, decision).allowed.contains(item),
{
    lemma_without(grants.allowed, item);
    lemma_without(grants.denied, item);
    if !grants.allowed.contains(item) {
        assert(grants.allowed.push(item)[grants.allowed.len() as int] == item);
    }
    if !grants.denied.contains(item) {
        assert(grants.denied.push(item)[grants.denied.len() as int] == item);
    }
}

/// Remembering an answer twice is remembering it once.
pub proof fn law_remembering_is_idempotent(grants: Grants, item: Ability, decision: Decision)
    ensures
        remembered(remembered(grants, item, decision), item, decision) == remembered(
            grants,
            item,
            decision,
        ),
{
    law_an_answer_replaces_its_opposite(grants, item, decision);
    lemma_without_absent(without(grants.allowed, item), item);
    lemma_without_absent(without(grants.denied, item), item);
}

proof fn lemma_without_absent(list: Seq<Ability>, item: Ability)
    ensures
        !list.contains(item) ==> without(list, item) == list,
        !without(list, item).contains(item),
    decreases list.len(),
{
    lemma_without(list, item);
    if list.len() > 0 && !list.contains(item) {
        let rest = list.drop_last();
        assert(!rest.contains(item)) by {
            if rest.contains(item) {
                let k = choose|k: int| 0 <= k < rest.len() && rest[k] == item;
                assert(list[k] == item);
            }
        }
        lemma_without_absent(rest, item);
        assert(list[list.len() - 1] != item);
        assert(rest.push(list.last()) =~= list);
    }
}

/// Every capability covers itself.
pub proof fn law_every_capability_covers_itself(item: Ability, roots: Roots)
    ensures
        covers_ability(item, item, roots),
{
    match item {
        Ability::ReadFile { scope: Scope::Subtree { path } } => {
            law_within_itself(path);
            assert(within(path, seq![path][0]));
        },
        Ability::WriteFile { scope: Scope::Subtree { path } } => {
            law_within_itself(path);
            assert(within(path, seq![path][0]));
        },
        Ability::Network { host } => {
            let pattern = host_key(host);
            if pattern.len() >= 2 {
                assert(pattern.skip(pattern.len() - pattern.skip(1).len()) =~= pattern.skip(1));
            }
        },
        _ => {},
    }
}

proof fn lemma_scopes_nest(outer: Scope, middle: Scope, inner: Scope, roots: Roots)
    requires
        scope_contains(outer, middle, roots),
        scope_contains(middle, inner, roots),
    ensures
        scope_contains(outer, inner, roots),
{
    if let (Scope::Subtree { path: a }, Scope::Subtree { path: b }) = (middle, inner) {
        let list = roots_of(outer, roots);
        let i = choose|i: int| 0 <= i < list.len() && within(a, #[trigger] list[i]);
        assert(roots_of(middle, roots) =~= seq![a]);
        assert(within(b, a));
        let p = normal_parts(b);
        let q = normal_parts(a);
        let r = normal_parts(list[i]);
        assert(p.take(r.len() as int) =~= p.take(q.len() as int).take(r.len() as int));
        assert(within(b, list[i]));
    }
}

proof fn lemma_hosts_nest(outer: Seq<char>, middle: Seq<char>, inner: Seq<char>)
    requires
        host_covers(outer, middle),
        host_covers(middle, inner),
    ensures
        host_covers(outer, inner),
{
    let a = host_key(outer);
    let b = host_key(middle);
    let c = host_key(inner);
    if a.len() >= 2 && a[0] == '*' && a[1] == '.' {
        let wide = a.skip(1);
        if b.len() >= 2 && b[0] == '*' && b[1] == '.' {
            let narrow = b.skip(1);
            assert(narrow.skip(narrow.len() - wide.len()) =~= b.skip(b.len() - wide.len()));
            assert(c.skip(c.len() - wide.len()) =~= c.skip(c.len() - narrow.len()).skip(
                narrow.len() - wide.len(),
            ));
        }
    }
}

/// What covers a capability covers all that the capability covers.
pub proof fn law_covering_is_transitive(outer: Ability, middle: Ability, inner: Ability, roots: Roots)
    requires
        covers_ability(outer, middle, roots),
        covers_ability(middle, inner, roots),
    ensures
        covers_ability(outer, inner, roots),
{
    match (outer, middle, inner) {
        (Ability::Network { host: a }, Ability::Network { host: b }, Ability::Network { host: c }) => {
            lemma_hosts_nest(a, b, c);
        },
        (
            Ability::ReadFile { scope: a },
            Ability::ReadFile { scope: b },
            Ability::ReadFile { scope: c },
        ) => {
            lemma_scopes_nest(a, b, c, roots);
        },
        (
            Ability::WriteFile { scope: a },
            Ability::ReadFile { scope: b },
            Ability::ReadFile { scope: c },
        ) => {
            lemma_scopes_nest(a, b, c, roots);
        },
        (
            Ability::WriteFile { scope: a },
            Ability::WriteFile { scope: b },
            Ability::ReadFile { scope: c },
        ) => {
            lemma_scopes_nest(a, b, c, roots);
        },
        (
            Ability::WriteFile { scope: a },
            Ability::WriteFile { scope: b },
            Ability::WriteFile { scope: c },
        ) => {
            lemma_scopes_nest(a, b, c, roots);
        },
        _ => {},
    }
}

proof fn lemma_without_added(list: Seq<Ability>, item: Ability)
    ensures
        without(with_item(list, item), item) == without(list, item),
        without(without(list, item), item) == without(list, item),
{
    lemma_without_absent(list, item);
    lemma_without_absent(without(list, item), item);
    if !list.contains(item) {
        assert(list.push(item).drop_last() =~= list);
    }
}

/// Forgetting undoes remembering: what was never decided is undecided again, and whatever was
/// decided before is gone as if it had been forgotten at once.
pub proof fn law_forgetting_undoes_remembering(grants: Grants, item: Ability, decision: Decision)
    ensures
        forgotten(remembered(grants, item, decision), item) == forgotten(grants, item),
        !grants.allowed.contains(item) && !grants.denied.contains(item) ==> forgotten(
            remembered(grants, item, decision),
            item,
        ) == grants,
{
    lemma_without_added(grants.allowed, item);
    lemma_without_added(grants.denied, item);
    lemma_without_absent(grants.allowed, item);
    lemma_without_absent(grants.denied, item);
}

/// Once a capability is remembered as allowed, and no other refusal covers it, a declared request
/// for it is allowed.
pub proof fn law_an_allowed_request_passes(standing: Standing, item: Ability)
    requires
        one_covers(standing.declared, item, standing.roots),
        !one_covers(without(standing.grants.denied, item), item, standing.roots),
    ensures
        verdict_on(
            Standing {
                grants: remembered(standing.grants, item, Decision::Allow),
                ..standing
            },
            item,
        ) is Allowed,
{
    law_every_capability_covers_itself(item, standing.roots);
    law_an_answer_replaces_its_opposite(standing.grants, item, Decision::Allow);
    let allowed = remembered(standing.grants, item, Decision::Allow).allowed;
    let k = choose|k: int| 0 <= k < allowed.len() && allowed[k] == item;
    assert(covers_ability(allowed[k], item, standing.roots));
}

/// Once a capability is remembered as refused, a request for it is denied.
pub proof fn law_a_refused_request_is_denied(standing: Standing, item: Ability)
    ensures
        verdict_on(
            Standing {
                grants: remembered(standing.grants, item, Decision::Deny),
                ..standing
            },
            item,
        ) == (Verdict::Denied { reason: DenyReason::UserDenied }),
{
    law_every_capability_covers_itself(item, standing.roots);
    law_an_answer_replaces_its_opposite(standing.grants, item, Decision::Deny);
    let denied = remembered(standing.grants, item, Decision::Deny).denied;
    let k = choose|k: int| 0 <= k < denied.len() && denied[k] == item;
    assert(covers_ability(denied[k], item, standing.roots));
}

/// Forgetting a capability removes it from both lists and leaves every other decision.
pub proof fn law_forgetting_removes_both_answers(grants: Grants, item: Ability, other: Ability)
    ensures
        !forgotten(grants, item).allowed.contains(item),
        !forgotten(grants, item).denied.contains(item),
        other != item ==> {
            &&& forgotten(grants, item).allowed.contains(other) == grants.allowed.contains(other)
            &&& forgotten(grants, item).denied.contains(other) == grants.denied.contains(other)
        },
{
    lemma_without(grants.allowed, item);
    lemma_without(grants.denied, item);
}

/// A path is within itself, however it is written.
pub proof fn law_within_itself(path: Seq<Part>)
    ensures
        within(path, path),
{
    assert(normal_parts(path).take(normal_parts(path).len() as int) =~= normal_parts(path));
}

/// Resolving a path first changes no answer about where it sits.
pub proof fn law_within_sees_through_dots(text: Seq<char>, root: Seq<Part>)
    ensures
        within(normal_parts(crate::path::parts_of(text)), root) == within(
            crate::path::parts_of(text),
            root,
        ),
{
    lemma_parts_placed(text);
    law_normalise_idempotent(crate::path::parts_of(text));
}

} // verus!
