//! The command line of the extension host process, and the line-delimited stream it speaks.
//!
//! Three independent layers stand between an extension and the machine: the runtime's own
//! permission model, the bootstrap script, and the capability broker. This module builds the
//! first: the arguments, and an environment made from nothing.

use vstd::prelude::*;
#[allow(unused_imports)]
use vstd::utf8::{decode_utf8, valid_utf8};
use crate::capability::is_within;
#[allow(unused_imports)]
use crate::capability::within_one;
use crate::path::PathBuf;
#[allow(unused_imports)]
use crate::path::{paths_view, rooted};
use crate::protocol::Message;
use crate::text::{chars_of, decimal, is_blank, same, split_bytes, utf8_text};
#[allow(unused_imports)]
use crate::text::{begins, blank, decimal_of, inner, views, yielded};

verus! {

/// Resource bounds applied to the host process.
#[derive(Debug, Clone, Copy)]
pub struct HostLimits {
    /// Heap cap in megabytes.
    pub max_old_space_mb: u64,
    /// How long to wait for the host's `$/ready` before giving up.
    pub startup_timeout_ms: u64,
    /// How many requests may be in flight before the host is considered stuck.
    pub max_pending_requests: usize,
}

impl Default for HostLimits {
    fn default() -> (r: HostLimits)
        ensures
            r.max_old_space_mb == 512,
            r.startup_timeout_ms == 10_000,
            r.max_pending_requests == 1024,
    {
        HostLimits { max_old_space_mb: 512, startup_timeout_ms: 10_000, max_pending_requests: 1024 }
    }
}

/// Everything needed to start a host process.
#[derive(Debug, Clone)]
pub struct HostConfig {
    /// Absolute path to the `node` binary.
    pub node: PathBuf,
    /// Absolute path to the host bootstrap script.
    pub bootstrap: PathBuf,
    /// Directories the host is allowed to read: its own code and the installed extensions.
    /// Nothing else is readable.
    pub readable_roots: Vec<PathBuf>,
    /// Working directory for the host.
    pub cwd: PathBuf,
    /// Resource bounds.
    pub limits: HostLimits,
    /// Whether to pass `--permission`, which older runtimes reject outright.
    pub node_permission_model: bool,
    /// Whether extensions may generate code at run time. Off unless asked for.
    pub allow_code_generation: bool,
}

/// A resolved command line for the host process.
#[derive(Debug, Clone, PartialEq, Eq)]
pub struct HostSpec {
    /// The program to run.
    pub program: PathBuf,
    /// Its arguments.
    pub args: Vec<String>,
    /// The **complete** environment, in the order of the names. The parent's environment is not
    /// inherited.
    pub env: Vec<(String, String)>,
    /// Working directory.
    pub cwd: PathBuf,
}

/// The names and values of an environment.
pub open spec fn env_view(env: Seq<(String, String)>) -> Seq<(Seq<char>, Seq<char>)> {
    Seq::new(env.len(), |i: int| (env[i].0@, env[i].1@))
}

/// The protocol version this library speaks. The host refuses to start if it does not match, so
/// a stale bootstrap script fails loudly.
pub const PROTOCOL_VERSION: &'static str = "1";

/// The arguments that make each root readable.
pub open spec fn read_args(roots: Seq<PathBuf>) -> Seq<Seq<char>> {
    Seq::new(roots.len(), |i: int| "--allow-fs-read="@ + roots[i].text@)
}

/// The arguments of a host process.
///
/// Nothing allows child processes, workers or writing: those go through the broker or do not
/// happen.
pub open spec fn host_args(config: HostConfig) -> Seq<Seq<char>> {
    let size = seq!["--max-old-space-size="@ + decimal_of(config.limits.max_old_space_mb as nat)];
    let generation = if config.allow_code_generation {
        Seq::<Seq<char>>::empty()
    } else {
        seq!["--disallow-code-generation-from-strings"@]
    };
    let permission = if config.node_permission_model {
        seq!["--permission"@] + read_args(config.readable_roots@)
    } else {
        Seq::<Seq<char>>::empty()
    };
    (size + generation + permission).push(config.bootstrap.text@)
}

/// The environment of a host process: made from nothing, with the system's root where the
/// platform needs it.
pub open spec fn host_env(extension_id: Seq<char>, system_root: Option<Seq<char>>) -> Seq<
    (Seq<char>, Seq<char>),
> {
    let own = seq![
        ("DECO_EXTENSION_ID"@, extension_id),
        ("DECO_HOST_PROTOCOL"@, PROTOCOL_VERSION@),
    ];
    match system_root {
        Some(root) => own.push(("SystemRoot"@, root)),
        None => own,
    }
}

/// The argument that makes `root` readable.
fn read_arg(root: &PathBuf) -> (r: String)
    ensures
        r@ == "--allow-fs-read="@ + root.text@,
{
    let mut r: String = "--allow-fs-read=".to_owned();
    r.append(root.display());
    r
}

/// Builds the command line for a host process.
///
/// `system_root` is the value of the one variable without which the runtime refuses to start on
/// Windows; `None` elsewhere.
pub fn build_spec(config: &HostConfig, extension_id: &str, system_root: Option<&str>) -> (r:
    HostSpec)
    ensures
        r.program == config.node,
        r.cwd == config.cwd,
        views(r.args@) == host_args(*config),
        env_view(r.env@) == host_env(
            extension_id@,
            match system_root {
                Some(root) => Some(root@),
                None => None,
            },
        ),
{
    let mut args: Vec<String> = Vec::new();
    let mut size: String = "--max-old-space-size=".to_owned();
    let amount: String = decimal(config.limits.max_old_space_mb);
    size.append(amount.as_str());
    args.push(size);
    let ghost first = seq![
        "--max-old-space-size="@ + decimal_of(config.limits.max_old_space_mb as nat),
    ];
    assert(views(args@) =~= first);
    if !config.allow_code_generation {
        args.push("--disallow-code-generation-from-strings".to_owned());
    }
    let ghost generation = if config.allow_code_generation {
        Seq::<Seq<char>>::empty()
    } else {
        seq!["--disallow-code-generation-from-strings"@]
    };
    let ghost before = first + generation;
    assert(views(args@) =~= before);
    let ghost permission = if config.node_permission_model {
        seq!["--permission"@] + read_args(config.readable_roots@)
    } else {
        Seq::<Seq<char>>::empty()
    };
    if config.node_permission_model {
        args.push("--permission".to_owned());
        let mut i: usize = 0;
        assert(views(args@) =~= before.push("--permission"@) + read_args(
            config.readable_roots@.take(0),
        ));
        while i < config.readable_roots.len()
            invariant
                i <= config.readable_roots@.len(),
                views(args@) == before.push("--permission"@) + read_args(
                    config.readable_roots@.take(i as int),
                ),
            decreases config.readable_roots@.len() - i,
        {
            let ghost listed = views(args@);
            args.push(read_arg(&config.readable_roots[i]));
            i = i + 1;
            proof {
                let root = config.readable_roots@[i - 1];
                assert(views(args@) =~= listed.push("--allow-fs-read="@ + root.text@));
                assert(read_args(config.readable_roots@.take(i as int)) =~= read_args(
                    config.readable_roots@.take(i - 1),
                ).push("--allow-fs-read="@ + root.text@));
                assert(views(args@) =~= before.push("--permission"@) + read_args(
                    config.readable_roots@.take(i as int),
                ));
            }
        }
        assert(config.readable_roots@.take(config.readable_roots@.len() as int)
            =~= config.readable_roots@);
    }
    assert(views(args@) =~= before + permission);
    args.push(config.bootstrap.display().to_owned());
    assert(views(args@) =~= host_args(*config));
    let mut env: Vec<(String, String)> = Vec::new();
    env.push(("DECO_EXTENSION_ID".to_owned(), extension_id.to_owned()));
    env.push(("DECO_HOST_PROTOCOL".to_owned(), PROTOCOL_VERSION.to_owned()));
    if let Some(root) = system_root {
        env.push(("SystemRoot".to_owned(), root.to_owned()));
    }
    assert(env_view(env@) =~= host_env(
        extension_id@,
        match system_root {
            Some(root) => Some(root@),
            None => None,
        },
    ));
    HostSpec { program: config.node.clone(), args, env, cwd: config.cwd.clone() }
}

impl HostSpec {
    /// The value of an environment variable.
    pub fn env_value(&self, name: &str) -> (r: Option<&str>)
        ensures
            match r {
                Some(value) => exists|i: int|
                    0 <= i < self.env@.len() && (#[trigger] env_view(self.env@)[i]) == (
                        name@,
                        value@,
                    ),
                None => forall|i: int|
                    0 <= i < self.env@.len() ==> (#[trigger] env_view(self.env@)[i]).0 != name@,
            },
    {
        let mut i: usize = 0;
        while i < self.env.len()
            invariant
                i <= self.env@.len(),
                forall|j: int| 0 <= j < i ==> (#[trigger] env_view(self.env@)[j]).0 != name@,
            decreases self.env@.len() - i,
        {
            if same(self.env[i].0.as_str(), name) {
                assert(env_view(self.env@)[i as int] == (name@, self.env@[i as int].1@));
                return Some(self.env[i].1.as_str());
            }
            i = i + 1;
        }
        None
    }

    /// Whether the program is an absolute path.
    ///
    /// The host's environment is made from nothing, so there is no `PATH` to search for a bare
    /// name.
    pub fn program_is_absolute(&self) -> (r: bool)
        ensures
            r == rooted(self.program.text@),
    {
        let chars: Vec<char> = chars_of(self.program.display());
        chars.len() > 0 && chars[0] == '/'
    }
}

/// Failure to start a host.
#[derive(Debug)]
pub enum HostError {
    /// The node binary was not where it was expected.
    NodeNotFound {
        /// The path that was tried.
        path: PathBuf,
    },
    /// The bootstrap script was missing.
    BootstrapNotFound {
        /// The path that was tried.
        path: PathBuf,
    },
    /// The process could not be started.
    Spawn(String),
}

impl HostError {
    /// What the error says, in contracts.
    pub open spec fn text(&self) -> Seq<char> {
        match self {
            HostError::NodeNotFound { path } => "node was not found at "@ + path.text@,
            HostError::BootstrapNotFound { path } =>
                "the extension host bootstrap was not found at "@ + path.text@,
            HostError::Spawn(error) => "could not start the extension host: "@ + error@,
        }
    }

    /// What the error says.
    pub fn message(&self) -> (r: String)
        ensures
            r@ == self.text(),
    {
        match self {
            HostError::NodeNotFound { path } => {
                let mut r: String = "node was not found at ".to_owned();
                r.append(path.display());
                r
            },
            HostError::BootstrapNotFound { path } => {
                let mut r: String = "the extension host bootstrap was not found at ".to_owned();
                r.append(path.display());
                r
            },
            HostError::Spawn(error) => {
                let mut r: String = "could not start the extension host: ".to_owned();
                r.append(error.as_str());
                r
            },
        }
    }
}

/// Checks that everything [`build_spec`] refers to exists, as the caller found it on disk.
///
/// Called before spawning, so that a missing runtime is reported as a clear message.
pub fn verify(config: &HostConfig, node_exists: bool, bootstrap_exists: bool) -> (r: Result<
    (),
    HostError,
>)
    ensures
        match r {
            Ok(()) => node_exists && bootstrap_exists,
            Err(HostError::NodeNotFound { path }) => !node_exists && path == config.node,
            Err(HostError::BootstrapNotFound { path }) => {
                node_exists && !bootstrap_exists && path == config.bootstrap
            },
            Err(HostError::Spawn(_)) => false,
        },
{
    if !node_exists {
        return Err(HostError::NodeNotFound { path: config.node.clone() });
    }
    if !bootstrap_exists {
        return Err(HostError::BootstrapNotFound { path: config.bootstrap.clone() });
    }
    Ok(())
}

/// Whether `path` is inside one of `roots`.
pub fn within_any(path: &PathBuf, roots: &Vec<PathBuf>) -> (r: bool)
    ensures
        r == within_one(path@, paths_view(roots@)),
{
    let mut i: usize = 0;
    while i < roots.len()
        invariant
            i <= roots@.len(),
            forall|j: int|
                0 <= j < i ==> !crate::capability::within(
                    path@,
                    #[trigger] paths_view(roots@)[j],
                ),
        decreases roots@.len() - i,
    {
        if is_within(path, &roots[i]) {
            assert(crate::capability::within(path@, paths_view(roots@)[i as int]));
            return true;
        }
        i = i + 1;
    }
    false
}

/// A line-delimited connection to a host process: what has come in and not been read yet, and
/// what has been sent.
#[derive(Debug)]
pub struct Connection {
    /// Lines that have come in, oldest first.
    pub inbound: Vec<Vec<u8>>,
    /// What was sent.
    pub outbound: String,
}

/// Whether `decode` may turn the line into `message`.
pub open spec fn decodes<D: Fn(&String) -> Result<Message, String>>(
    decode: D,
    line: Seq<u8>,
    message: Message,
) -> bool {
    &&& valid_utf8(line)
    &&& !blank(decode_utf8(line))
    &&& exists|text: String| #[trigger]
        text@ == decode_utf8(line) && decode.ensures((&text,), Ok(message))
}

/// Whether the line may be passed over: it is no text, it is blank, or `decode` rejects it.
pub open spec fn passed_over<D: Fn(&String) -> Result<Message, String>>(
    decode: D,
    line: Seq<u8>,
) -> bool {
    ||| !valid_utf8(line)
    ||| blank(decode_utf8(line))
    ||| exists|text: String, error: String| #[trigger]
        text@ == decode_utf8(line) && #[trigger] decode.ensures((&text,), Err(error))
}

/// Whether reading the next message of `before` comes to `message` and leaves `after`: every line
/// in front of it is passed over, and every line there is where there is none.
pub open spec fn receives<D: Fn(&String) -> Result<Message, String>>(
    decode: D,
    before: Seq<Seq<u8>>,
    after: Seq<Seq<u8>>,
    message: Option<Message>,
) -> bool {
    match message {
        Some(message) => exists|n: int|
            {
                &&& 0 <= n < before.len()
                &&& forall|j: int| 0 <= j < n ==> passed_over(decode, #[trigger] before[j])
                &&& decodes(decode, #[trigger] before[n], message)
                &&& after == before.skip(n + 1)
            },
        None => {
            &&& after.len() == 0
            &&& forall|j: int|
                0 <= j < before.len() ==> passed_over(decode, #[trigger] before[j])
        },
    }
}

impl Connection {
    /// A connection on which `input` has come in.
    pub fn new(input: &Vec<u8>) -> (r: Connection)
        ensures
            inner(r.inbound@) == yielded(input@, 10u8),
            r.outbound@ == Seq::<char>::empty(),
    {
        Connection { inbound: split_bytes(input, 10), outbound: String::new() }
    }

    /// Sends an encoded message.
    pub fn send(&mut self, encoded: &str)
        ensures
            final(self).outbound@ == old(self).outbound@ + encoded@,
            final(self).inbound@ == old(self).inbound@,
    {
        self.outbound.append(encoded);
    }

    /// Reads the next message, or `None` at the end of what has come in.
    ///
    /// A line that does not decode is passed over rather than fatal: the host's output can pick
    /// up stray text from a misbehaving extension, and dropping the connection over it would be
    /// a denial of service any extension could trigger.
    pub fn receive<D: Fn(&String) -> Result<Message, String>>(&mut self, decode: &D) -> (r: Option<
        Message,
    >)
        requires
            forall|text: &String| decode.requires((text,)),
        ensures
            final(self).outbound@ == old(self).outbound@,
            receives(*decode, inner(old(self).inbound@), inner(final(self).inbound@), r),
    {
        let ghost all = inner(self.inbound@);
        let ghost mut n: int = 0;
        assert(all.skip(0) =~= all);
        while self.inbound.len() > 0
            invariant
                forall|text: &String| decode.requires((text,)),
                0 <= n <= all.len(),
                all == inner(old(self).inbound@),
                inner(self.inbound@) == all.skip(n),
                self.outbound@ == old(self).outbound@,
                forall|j: int| 0 <= j < n ==> passed_over(*decode, #[trigger] all[j]),
            decreases self.inbound@.len(),
        {
            let ghost here = self.inbound@;
            let line: Vec<u8> = self.inbound.remove(0);
            proof {
                assert(inner(here).len() == all.skip(n).len());
                assert(inner(here)[0] == line@);
                assert(line@ == all[n]);
                assert(self.inbound@ =~= here.skip(1));
                assert forall|k: int| 0 <= k < self.inbound@.len() implies inner(
                    self.inbound@,
                )[k] == #[trigger] all.skip(n + 1)[k] by {
                    assert(inner(here)[k + 1] == all.skip(n)[k + 1]);
                }
                assert(inner(self.inbound@) =~= all.skip(n + 1));
            }
            if let Some(text) = utf8_text(&line) {
                if !is_blank(text.as_str()) {
                    assert(text@ == decode_utf8(all[n]));
                    match decode(&text) {
                        Ok(message) => {
                            assert(decodes(*decode, all[n], message));
                            return Some(message);
                        },
                        Err(error) => {
                            assert(decode.ensures((&text,), Err(error)));
                        },
                    }
                }
            }
            proof {
                assert(passed_over(*decode, all[n]));
                n = n + 1;
            }
        }
        None
    }
}

// ---------------------------------------------------------------------------
// Laws
// ---------------------------------------------------------------------------

/// The message of a line, where `means` says which texts are one.
pub open spec fn line_message(line: Seq<u8>, means: spec_fn(Seq<char>) -> Option<Message>) -> Option<
    Message,
> {
    if valid_utf8(line) && !blank(decode_utf8(line)) {
        means(decode_utf8(line))
    } else {
        None
    }
}

/// The messages of the lines that hold one, in order.
pub open spec fn messages_in(
    lines: Seq<Seq<u8>>,
    means: spec_fn(Seq<char>) -> Option<Message>,
) -> Seq<Message>
    decreases lines.len(),
{
    if lines.len() == 0 {
        Seq::empty()
    } else {
        let rest = messages_in(lines.skip(1), means);
        match line_message(lines[0], means) {
            Some(message) => seq![message] + rest,
            None => rest,
        }
    }
}

/// Whether `decode` takes a text for the message that `means` says, and rejects any other.
pub open spec fn reads_as<D: Fn(&String) -> Result<Message, String>>(
    decode: D,
    means: spec_fn(Seq<char>) -> Option<Message>,
) -> bool {
    forall|text: String, read: Result<Message, String>| #[trigger]
        decode.ensures((&text,), read) ==> match read {
            Ok(message) => means(text@) == Some(message),
            Err(_) => means(text@) is None,
        }
}

proof fn lemma_passing_over<D: Fn(&String) -> Result<Message, String>>(
    decode: D,
    means: spec_fn(Seq<char>) -> Option<Message>,
    lines: Seq<Seq<u8>>,
    n: int,
)
    requires
        reads_as(decode, means),
        0 <= n <= lines.len(),
        forall|j: int| 0 <= j < n ==> passed_over(decode, #[trigger] lines[j]),
    ensures
        messages_in(lines, means) == messages_in(lines.skip(n), means),
    decreases n,
{
    if n == 0 {
        assert(lines.skip(0) =~= lines);
    } else {
        let rest = lines.skip(1);
        assert(passed_over(decode, lines[0]));
        assert forall|j: int| 0 <= j < n - 1 implies passed_over(decode, #[trigger] rest[j]) by {
            assert(rest[j] == lines[j + 1]);
        }
        lemma_passing_over(decode, means, rest, n - 1);
        assert(rest.skip(n - 1) =~= lines.skip(n));
    }
}

proof fn lemma_receiving<D: Fn(&String) -> Result<Message, String>>(
    decode: D,
    means: spec_fn(Seq<char>) -> Option<Message>,
    before: Seq<Seq<u8>>,
    after: Seq<Seq<u8>>,
    reply: Option<Message>,
)
    requires
        reads_as(decode, means),
        receives(decode, before, after, reply),
    ensures
        match reply {
            Some(message) => messages_in(before, means) == seq![message] + messages_in(
                after,
                means,
            ),
            None => messages_in(before, means).len() == 0 && messages_in(after, means).len() == 0,
        },
{
    match reply {
        Some(message) => {
            let n = choose|n: int|
                {
                    &&& 0 <= n < before.len()
                    &&& forall|j: int| 0 <= j < n ==> passed_over(decode, #[trigger] before[j])
                    &&& decodes(decode, #[trigger] before[n], message)
                    &&& after == before.skip(n + 1)
                };
            lemma_passing_over(decode, means, before, n);
            assert(before.skip(n)[0] == before[n]);
            assert(before.skip(n).skip(1) =~= after);
        },
        None => {
            lemma_passing_over(decode, means, before, before.len() as int);
        },
    }
}

/// Reading a connection again and again gives every message that came in, in order, and then
/// nothing. What is blank, does not decode, or is no text is passed over.
pub proof fn law_every_message_is_received_in_order<D: Fn(&String) -> Result<Message, String>>(
    decode: D,
    means: spec_fn(Seq<char>) -> Option<Message>,
    states: Seq<Seq<Seq<u8>>>,
    replies: Seq<Option<Message>>,
    i: int,
)
    requires
        reads_as(decode, means),
        states.len() == replies.len() + 1,
        forall|k: int|
            0 <= k < replies.len() ==> receives(
                decode,
                states[k],
                states[k + 1],
                #[trigger] replies[k],
            ),
        0 <= i < replies.len(),
    ensures
        ({
            let all = messages_in(states[0], means);
            replies[i] == if i < all.len() {
                Some(all[i])
            } else {
                None
            }
        }),
    decreases i,
{
    assert(receives(decode, states[0], states[1], replies[0]));
    lemma_receiving(decode, means, states[0], states[1], replies[0]);
    if i > 0 {
        let later = replies.skip(1);
        let rest = states.skip(1);
        assert forall|k: int| 0 <= k < later.len() implies receives(
            decode,
            rest[k],
            rest[k + 1],
            #[trigger] later[k],
        ) by {
            assert(later[k] == replies[k + 1]);
        }
        law_every_message_is_received_in_order(decode, means, rest, later, i - 1);
        assert(later[i - 1] == replies[i]);
    }
}

/// No argument lets the host start processes or workers or write files: each is the heap cap, a
/// ban on generated code, the permission flag, a readable root, or the bootstrap script.
pub proof fn law_arguments_only_restrict(config: HostConfig, i: int)
    requires
        0 <= i < host_args(config).len() - 1,
    ensures
        ({
            let arg = host_args(config)[i];
            ||| begins(arg, "--max-old-space-size="@)
            ||| arg == "--disallow-code-generation-from-strings"@
            ||| arg == "--permission"@
            ||| exists|k: int|
                0 <= k < config.readable_roots@.len() && arg == "--allow-fs-read="@
                    + (#[trigger] config.readable_roots@[k]).text@
        }),
{
    let args = host_args(config);
    let size = "--max-old-space-size="@ + decimal_of(config.limits.max_old_space_mb as nat);
    assert(size.take("--max-old-space-size="@.len() as int) =~= "--max-old-space-size="@);
    if i == 0 {
        assert(args[0] == size);
    } else {
        let skipped: int = if config.allow_code_generation {
            1
        } else {
            2
        };
        if i >= skipped + 1 {
            let k = i - skipped - 1;
            assert(args[i] == read_args(config.readable_roots@)[k]);
            assert(args[i] == "--allow-fs-read="@ + config.readable_roots@[k].text@);
        }
    }
}

/// The bootstrap script comes last, so that no flag reaches the script as its own.
pub proof fn law_the_bootstrap_comes_last(config: HostConfig)
    ensures
        host_args(config).last() == config.bootstrap.text@,
{
}

/// The environment holds three names at most, whatever the parent's environment holds.
pub proof fn law_the_environment_is_made_from_nothing(
    extension_id: Seq<char>,
    system_root: Option<Seq<char>>,
    i: int,
)
    requires
        0 <= i < host_env(extension_id, system_root).len(),
    ensures
        ({
            let name = host_env(extension_id, system_root)[i].0;
            ||| name == "DECO_EXTENSION_ID"@
            ||| name == "DECO_HOST_PROTOCOL"@
            ||| name == "SystemRoot"@ && system_root is Some
        }),
{
}

} // verus!
