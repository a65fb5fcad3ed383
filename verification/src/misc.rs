//! Smaller pieces: stored tags and tracked objects, the repository service,
//! command names and arguments, repository migrations and build display.
use vstd::prelude::*;

use crate::config::RemoteConfig;
use crate::graph::Digest;
use crate::ident::Build;
use crate::tracking::{Entry, Manifest, TagSpec};

verus! {

/// One version of a tag: the object that it points to, and who made it when.
#[derive(Debug)]
pub struct Tag {
    pub spec: TagSpec,
    pub target: Digest,
    pub parent: Digest,
    pub user: String,
    pub time: i64,
}

/// Object is the base class for all storable data types.
///
/// Objects are identified by a hash of their contents, and
/// can have any number of immediate children that they reference.
#[derive(Debug)]
pub enum Object {
    Manifest(Manifest<()>),
    Tag(Tag),
    Entry(Entry<()>),
}

impl Object {
    /// Identify the set of children to this object in the graph.
    pub fn child_objects(&self) -> (r: Vec<&Digest>)
        ensures
            r@.len() == 0,
    {
        Vec::new()
    }
}

/// Serves a repository to remote clients.
pub struct Service {
    repo: std::sync::Arc<RemoteConfig>,
}

impl Service {
    /// The repository that this service serves.
    pub closed spec fn served(&self) -> crate::config::RemoteConfigView {
        (*self.repo)@
    }

    /// A service for the given repository.
    pub fn new_srv(repo: RemoteConfig) -> (s: Service)
        ensures
            s.served() == repo@,
    {
        Service { repo: std::sync::Arc::new(repo) }
    }

    /// The repository that this service serves.
    pub fn repository(&self) -> (r: &RemoteConfig)
        ensures
            r@ == self.served(),
    {
        &*self.repo
    }
}

/// The name of a package repository.
#[derive(Debug)]
pub struct RepositoryName {
    pub name: String,
}

/// Some item that has an associated repository
pub trait HasLocation {
    /// The repository that the item is associated with.
    spec fn located_at(&self) -> RepositoryName;

    /// The associated repository name
    fn location(&self) -> (r: &RepositoryName)
        ensures
            *r == self.located_at(),
    ;
}

/// A shared item is associated with the repository of the item it shares.
impl<T: HasLocation> HasLocation for std::sync::Arc<T> {
    open spec fn located_at(&self) -> RepositoryName {
        (**self).located_at()
    }

    fn location(&self) -> (r: &RepositoryName) {
        (**self).location()
    }
}

/// A borrowed item is associated with the repository of the item it borrows.
impl<'a, T: HasLocation> HasLocation for &'a T {
    open spec fn located_at(&self) -> RepositoryName {
        (**self).located_at()
    }

    fn location(&self) -> (r: &RepositoryName) {
        (**self).location()
    }
}

/// Trait all cli commands must implement to provide a list of the
/// "request" equivalent values from their command lines.
pub trait CommandArgs {
    /// Get a string list of the important positional arguments for
    /// the command that may help distinguish it from another instance
    /// of the same command, or different spk command. If there are no
    /// positional arguments, this will return an empty list.
    fn get_positional_args(&self) -> Vec<String>;
}

/// Print the spk version information
pub struct Version {}

impl CommandArgs for Version {
    fn get_positional_args(&self) -> (r: Vec<String>)
        ensures
            r@.len() == 0,
    {
        // There are no important positional args for a version command
        Vec::new()
    }
}

/// Store an arbitrary blob of data in spfs
pub struct CmdWrite {
    /// A human-readable tag for the generated object; can be given more than once.
    pub tags: Vec<String>,
    /// Write to a remote repository instead of the local one
    pub remote: Option<String>,
    /// Store the contents of this file instead of reading from stdin
    pub file: Option<String>,
}

/// The spfs subcommands.
pub enum Command {
    Version,
    Init,
    Edit,
    Commit,
    Config,
    Reset,
    Run,
    Tag,
    Untag,
    Shell,
    Runtime,
    Layers,
    Platforms,
    Tags,
    Info,
    Pull,
    Push,
    Log,
    Search,
    Diff,
    LsTags,
    Ls,
    Migrate,
    Check,
    Read,
    Write(CmdWrite),
    /// A command found outside of spfs, with its arguments
    External(Vec<String>),
}

/// The name of a subcommand: its variant name in lower case.
pub open spec fn command_name_of(c: Command) -> Seq<char> {
    match c {
        Command::Version => "version"@,
        Command::Init => "init"@,
        Command::Edit => "edit"@,
        Command::Commit => "commit"@,
        Command::Config => "config"@,
        Command::Reset => "reset"@,
        Command::Run => "run"@,
        Command::Tag => "tag"@,
        Command::Untag => "untag"@,
        Command::Shell => "shell"@,
        Command::Runtime => "runtime"@,
        Command::Layers => "layers"@,
        Command::Platforms => "platforms"@,
        Command::Tags => "tags"@,
        Command::Info => "info"@,
        Command::Pull => "pull"@,
        Command::Push => "push"@,
        Command::Log => "log"@,
        Command::Search => "search"@,
        Command::Diff => "diff"@,
        Command::LsTags => "lstags"@,
        Command::Ls => "ls"@,
        Command::Migrate => "migrate"@,
        Command::Check => "check"@,
        Command::Read => "read"@,
        Command::Write(_) => "write"@,
        Command::External(_) => "external"@,
    }
}

impl Command {
    /// The name of this subcommand.
    pub fn command_name(&self) -> (r: &'static str)
        ensures
            r@ == command_name_of(*self),
    {
        match self {
            Command::Version => "version",
            Command::Init => "init",
            Command::Edit => "edit",
            Command::Commit => "commit",
            Command::Config => "config",
            Command::Reset => "reset",
            Command::Run => "run",
            Command::Tag => "tag",
            Command::Untag => "untag",
            Command::Shell => "shell",
            Command::Runtime => "runtime",
            Command::Layers => "layers",
            Command::Platforms => "platforms",
            Command::Tags => "tags",
            Command::Info => "info",
            Command::Pull => "pull",
            Command::Push => "push",
            Command::Log => "log",
            Command::Search => "search",
            Command::Diff => "diff",
            Command::LsTags => "lstags",
            Command::Ls => "ls",
            Command::Migrate => "migrate",
            Command::Check => "check",
            Command::Read => "read",
            Command::Write(_) => "write",
            Command::External(_) => "external",
        }
    }
}

/// An external subcommand line split into the command and its arguments;
/// nothing for an empty line.
pub fn split_external_command(args: Vec<String>) -> (r: Option<(String, Vec<String>)>)
    ensures
        args@.len() == 0 <==> r is None,
        r matches Some((cmd, rest)) ==> cmd@ == args@[0]@ && rest@.len() == args@.len() - 1
            && forall|i: int| 0 <= i < rest@.len() ==> #[trigger] rest@[i]@ == args@[i + 1]@,
{
    if args.len() == 0 {
        return None;
    }
    let command = args[0].clone();
    let mut rest: Vec<String> = Vec::new();
    let mut i: usize = 1;
    while i < args.len()
        invariant
            1 <= i <= args@.len(),
            rest@.len() == i - 1,
            forall|k: int| 0 <= k < rest@.len() ==> #[trigger] rest@[k]@ == args@[k + 1]@,
        decreases args.len() - i,
    {
        rest.push(args[i].clone());
        i = i + 1;
    }
    Some((command, rest))
}

/// The major version of a semantic version string, as `semver::Version::parse`
/// reads it; nothing where the string is not a semantic version.
pub uninterp spec fn semver_major(s: Seq<char>) -> Option<u64>;

/// Reads the major version of a semantic version with `semver::Version::parse`;
/// the contract claims that the result is what `semver_major` names.
#[verifier::external_body]
fn parse_semver_major(s: &str) -> (r: Option<u64>)
    ensures
        r == semver_major(s@),
{
    semver::Version::parse(s).ok().map(|v| v.major)
}

/// `found` lists, in increasing order, the indexes of the versions whose
/// major version is higher than `last_major`.
pub open spec fn migration_plan(last_major: u64, versions: Seq<String>, found: Seq<usize>) -> bool {
    &&& forall|k: int| 0 <= k < found.len() ==> #[trigger] found[k] < versions.len()
    &&& forall|k1: int, k2: int| 0 <= k1 < k2 < found.len() ==> #[trigger] found[k1] < #[trigger] found[k2]
    &&& forall|i: int|
        0 <= i < versions.len() ==> (last_major < semver_major(#[trigger] versions[i]@)->0
            <==> exists|k: int| 0 <= k < found.len() && found[k] == i)
}

/// The migrations that a repository needs, as indexes into `versions` (the
/// versions of the known migrations, in order): those of a higher major
/// version than the repository's last migration. Nothing where a version is
/// not a semantic version.
pub fn pending_migrations(last_major: u64, versions: &Vec<String>) -> (r: Option<Vec<usize>>)
    ensures
        r is None <==> exists|i: int| 0 <= i < versions@.len() && semver_major(#[trigger] versions@[i]@) is None,
        r matches Some(found) ==> migration_plan(last_major, versions@, found@),
{
    let mut r: Vec<usize> = Vec::new();
    let mut i: usize = 0;
    while i < versions.len()
        invariant
            i <= versions@.len(),
            forall|j: int| 0 <= j < i ==> semver_major(#[trigger] versions@[j]@) is Some,
            forall|k: int| 0 <= k < r@.len() ==> #[trigger] r@[k] < i,
            forall|k1: int, k2: int| 0 <= k1 < k2 < r@.len() ==> #[trigger] r@[k1] < #[trigger] r@[k2],
            forall|j: int|
                0 <= j < i ==> (last_major < semver_major(#[trigger] versions@[j]@)->0
                    <==> exists|k: int| 0 <= k < r@.len() && r@[k] == j),
        decreases versions.len() - i,
    {
        let major = parse_semver_major(versions[i].as_str());
        let ghost before = r@;
        let m = match major {
            Some(m) => m,
            None => return None,
        };
        if last_major < m {
            r.push(i);
        }
        proof {
            assert forall|j: int|
                0 <= j < i + 1 implies (last_major < semver_major(#[trigger] versions@[j]@)->0
                <==> exists|k: int| 0 <= k < r@.len() && r@[k] == j) by {
                if j < i {
                    if exists|k: int| 0 <= k < before.len() && before[k] == j {
                        let k = choose|k: int| 0 <= k < before.len() && before[k] == j;
                        assert(r@[k] == j);
                    }
                    if exists|k: int| 0 <= k < r@.len() && r@[k] == j {
                        let k = choose|k: int| 0 <= k < r@.len() && r@[k] == j;
                        assert(k < before.len());
                        assert(before[k] == j);
                    }
                } else {
                    if last_major < semver_major(versions@[j]@)->0 {
                        assert(r@[r@.len() - 1] == j);
                    } else {
                        if exists|k: int| 0 <= k < r@.len() && r@[k] == j {
                            let k = choose|k: int| 0 <= k < r@.len() && r@[k] == j;
                            assert(before[k] < i);
                        }
                    }
                }
            }
        }
        i = i + 1;
    }
    proof {
        assert(i == versions@.len());
        assert(migration_plan(last_major, versions@, r@));
    }
    Some(r)
}

/// The color in which a build is shown.
#[derive(PartialEq, Eq, Structural, Debug, Clone, Copy)]
pub enum BuildColor {
    BrightMagenta,
    BrightYellow,
    Dimmed,
}

/// The color of a build: bright magenta for an embedded build, bright
/// yellow for a source build, dimmed for all others.
pub open spec fn build_color_of(build: Build) -> BuildColor {
    match build {
        Build::Embedded => BuildColor::BrightMagenta,
        Build::Source => BuildColor::BrightYellow,
        Build::Digest(_) => BuildColor::Dimmed,
    }
}

/// Embedded builds show in bright magenta, source builds in bright yellow,
/// all others dimmed.
pub fn build_color(build: &Build) -> (c: BuildColor)
    ensures
        c == build_color_of(*build),
        build is Embedded ==> c is BrightMagenta,
        build is Source ==> c is BrightYellow,
        build is Digest ==> c is Dimmed,
{
    match build {
        Build::Embedded => BuildColor::BrightMagenta,
        Build::Source => BuildColor::BrightYellow,
        _ => BuildColor::Dimmed,
    }
}

/// The code that `colored` writes after a colored text, to reset the terminal.
pub open spec fn reset_code() -> Seq<char> {
    seq!['\x1B', '[', '0', 'm']
}

/// The code that `colored` writes before a text shown in the color.
pub open spec fn color_code(c: BuildColor) -> Seq<char> {
    match c {
        BuildColor::BrightMagenta => seq!['\x1B', '[', '9', '5', 'm'],
        BuildColor::BrightYellow => seq!['\x1B', '[', '9', '3', 'm'],
        BuildColor::Dimmed => seq!['\x1B', '[', '2', 'm'],
    }
}

/// `shown` is `text` as `colored` shows it in the color whose code is
/// `code`: the text alone where colors are off, else the code, the text
/// and the reset code. The leading code is missing where colors are turned
/// off by another thread while the text is written. A text that holds an
/// escape character of its own may have codes added inside it, so only its
/// frame is known.
pub open spec fn painted(shown: Seq<char>, text: Seq<char>, code: Seq<char>) -> bool {
    ||| shown == text
    ||| exists|lead: Seq<char>, body: Seq<char>|
        #[trigger] lead.add(body) + reset_code() == shown && (lead == code || lead.len() == 0)
            && (!text.contains('\x1B') ==> body == text)
}

/// The text in bright magenta, by `colored::Colorize::bright_magenta`.
///
/// Whether colors are on depends on the terminal and the environment, so the
/// result is stated for either case.
#[verifier::external_body]
fn paint_bright_magenta(text: &str) -> (r: String)
    ensures
        painted(r@, text@, color_code(BuildColor::BrightMagenta)),
{
    colored::Colorize::bright_magenta(text).to_string()
}

/// The text in bright yellow, by `colored::Colorize::bright_yellow`.
///
/// Whether colors are on depends on the terminal and the environment, so the
/// result is stated for either case.
#[verifier::external_body]
fn paint_bright_yellow(text: &str) -> (r: String)
    ensures
        painted(r@, text@, color_code(BuildColor::BrightYellow)),
{
    colored::Colorize::bright_yellow(text).to_string()
}

/// The text dimmed, by `colored::Colorize::dimmed`.
///
/// Whether colors are on depends on the terminal and the environment, so the
/// result is stated for either case.
#[verifier::external_body]
fn paint_dimmed(text: &str) -> (r: String)
    ensures
        painted(r@, text@, color_code(BuildColor::Dimmed)),
{
    colored::Colorize::dimmed(text).to_string()
}

/// The build's text, shown in the build's color.
pub fn format_build(build: &Build) -> (s: String)
    ensures
        painted(s@, crate::ident::build_text(*build), color_code(build_color_of(*build))),
{
    let text = build.to_string();
    match build_color(build) {
        BuildColor::BrightMagenta => paint_bright_magenta(text.as_str()),
        BuildColor::BrightYellow => paint_bright_yellow(text.as_str()),
        BuildColor::Dimmed => paint_dimmed(text.as_str()),
    }
}

} // verus!
