//! The spfs configuration: user, storage, file system and remote repositories.
use vstd::prelude::*;

verus! {

/// Where local repository data lives, unless configured otherwise.
pub const DEFAULT_STORAGE_ROOT: &'static str = "~/.local/share/spfs";

/// Where local repository data lives when the home directory cannot be found.
pub const FALLBACK_STORAGE_ROOT: &'static str = "/tmp/spfs";

/// The default limit on the number of layers in a runtime.
pub const DEFAULT_MAX_LAYERS: usize = 40;

/// The name used when the system cannot say who the user is or what the host is called.
pub const UNKNOWN_NAME: &'static str = "unknown";

/// What `url::Url::parse` makes of a string: the serialization of the parsed
/// url, or, where the string is not a valid url, the name of the parse
/// error's kind (its `Debug` form, such as `RelativeUrlWithoutBase`).
pub uninterp spec fn url_parse(s: Seq<char>) -> Result<Seq<char>, Seq<char>>;

/// Parses a url with `url::Url::parse`, keeping its serialization, or the
/// kind of the error.
///
/// The contract says that the result is what `url_parse` names for the
/// input; nothing more about the url grammar is stated.
#[verifier::external_body]
fn parse_url(s: &str) -> (r: Result<String, String>)
    ensures
        r is Ok <==> url_parse(s@) is Ok,
        r matches Ok(u) ==> u@ == url_parse(s@)->Ok_0,
        r matches Err(k) ==> k@ == url_parse(s@)->Err_0,
{
    match url::Url::parse(s) {
        Ok(u) => Ok(String::from(u)),
        Err(e) => Err(format!("{:?}", e)),
    }
}

/// The user name from `whoami::username`, if the system can tell it.
///
/// The result depends on the system, so nothing is stated of it.
#[verifier::external_body]
fn system_username() -> (r: Option<String>) {
    whoami::username().ok()
}

/// The host name from `whoami::hostname`, if the system can tell it.
///
/// The result depends on the system, so nothing is stated of it.
#[verifier::external_body]
fn system_hostname() -> (r: Option<String>) {
    whoami::hostname().ok()
}

/// A path with a leading `~` expanded to the home directory, by
/// `expanduser::expanduser`; nothing where the expansion fails.
///
/// The result depends on the environment; stated is only that a path that
/// does not begin with `~` comes back unchanged (the crate's last match arm).
#[verifier::external_body]
fn expand_user(path: &str) -> (r: Option<String>)
    ensures
        (path@.len() == 0 || path@[0] != '~') ==> (r is Some && r->0@ == path@),
{
    expanduser::expanduser(path).ok().map(|p| p.to_string_lossy().into_owned())
}

pub struct User {
    pub name: String,
    pub domain: String,
}

impl User {
    /// The user for the given user name and host name, as the system told
    /// them; a part that the system could not tell becomes `unknown`.
    pub fn from_system(name: Option<String>, domain: Option<String>) -> (u: User)
        ensures
            name matches Some(n) ==> u.name@ == n@,
            name is None ==> u.name@ == UNKNOWN_NAME@,
            domain matches Some(d) ==> u.domain@ == d@,
            domain is None ==> u.domain@ == UNKNOWN_NAME@,
    {
        let name = match name {
            Some(n) => n,
            None => UNKNOWN_NAME.to_owned(),
        };
        let domain = match domain {
            Some(d) => d,
            None => UNKNOWN_NAME.to_owned(),
        };
        User { name, domain }
    }
}

impl Default for User {
    /// The current user, on the current host.
    fn default() -> (u: Self) {
        User::from_system(system_username(), system_hostname())
    }
}

pub struct Filesystem {
    pub max_layers: usize,
}

impl Default for Filesystem {
    fn default() -> (f: Self)
        ensures
            f.max_layers == DEFAULT_MAX_LAYERS,
    {
        Filesystem { max_layers: DEFAULT_MAX_LAYERS }
    }
}

pub struct Storage {
    pub root: String,
}

impl Storage {
    /// The storage rooted at the expanded default root, or at the fallback
    /// root where the default could not be expanded.
    pub fn from_expanded_root(expanded: Option<String>) -> (s: Storage)
        ensures
            expanded matches Some(p) ==> s.root@ == p@,
            expanded is None ==> s.root@ == FALLBACK_STORAGE_ROOT@,
    {
        match expanded {
            Some(p) => Storage { root: p },
            None => Storage { root: FALLBACK_STORAGE_ROOT.to_owned() },
        }
    }
}

impl Default for Storage {
    fn default() -> (s: Self) {
        Storage::from_expanded_root(expand_user(DEFAULT_STORAGE_ROOT))
    }
}

/// A remote repository given by its address alone.
pub struct RemoteAddress {
    /// The serialization of a parsed url
    pub address: String,
}

/// A complete repository connection config, one kind per url scheme.
pub enum RemoteConfig {
    Fs { address: String },
    Grpc { address: String },
    Tar { address: String },
    Proxy { address: String },
}

/// A configured remote: either an address, or a complete config.
pub enum Remote {
    Address(RemoteAddress),
    Config(RemoteConfig),
}

/// An error in the configuration of a repository.
#[derive(Debug)]
pub enum ConfigError {
    /// The url names a scheme that no kind of repository serves
    UnsupportedScheme { scheme: String },
    /// The address is not a valid url: the kind of the parse error
    InvalidUrl { address: String, kind: String },
}

impl ConfigError {
    /// The message that this error reports.
    pub fn message(&self) -> (m: String)
        ensures
            self matches ConfigError::InvalidUrl { kind, .. } ==> m@ == "invalid repository url: "@
                + kind@,
            self matches ConfigError::UnsupportedScheme { scheme } ==> m@
                == "Unsupported repository scheme: '"@ + scheme@ + "'"@,
    {
        match self {
            ConfigError::InvalidUrl { kind, .. } => {
                let mut m = "invalid repository url: ".to_owned();
                m.append(kind.as_str());
                m
            },
            ConfigError::UnsupportedScheme { scheme } => {
                let mut m = "Unsupported repository scheme: '".to_owned();
                m.append(scheme.as_str());
                m.append("'");
                m
            },
        }
    }
}

/// The position of the first `:` in `s`, or its length if there is none.
pub open spec fn first_colon(s: Seq<char>) -> int
    decreases s.len(),
{
    if s.len() == 0 {
        0
    } else if s[0] == ':' {
        0
    } else {
        1 + first_colon(s.drop_first())
    }
}

/// The scheme of a url serialization: all that comes before the first `:`
/// (a scheme holds no `:`; this is what `url::Url::scheme` reads from its
/// serialization).
pub open spec fn scheme_of(s: Seq<char>) -> Seq<char> {
    s.take(first_colon(s))
}

proof fn lemma_first_colon(s: Seq<char>)
    ensures
        0 <= first_colon(s) <= s.len(),
        first_colon(s) < s.len() ==> s[first_colon(s)] == ':',
        forall|k: int| 0 <= k < first_colon(s) ==> s[k] != ':',
    decreases s.len(),
{
    if s.len() > 0 && s[0] != ':' {
        lemma_first_colon(s.drop_first());
        assert forall|k: int| 0 <= k < first_colon(s) implies s[k] != ':' by {
            if k > 0 {
                assert(s[k] == s.drop_first()[k - 1]);
            }
        }
    }
}

/// The scheme of a url serialization.
pub fn url_scheme(url: &str) -> (r: String)
    ensures
        r@ == scheme_of(url@),
{
    proof {
        lemma_first_colon(url@);
    }
    let n = url.unicode_len();
    let mut i: usize = 0;
    while i < n
        invariant
            n == url@.len(),
            i <= n,
            forall|k: int| 0 <= k < i ==> url@[k] != ':',
            0 <= first_colon(url@) <= url@.len(),
            first_colon(url@) < url@.len() ==> url@[first_colon(url@)] == ':',
            forall|k: int| 0 <= k < first_colon(url@) ==> url@[k] != ':',
        ensures
            i <= n,
            i == n || url@[i as int] == ':',
            forall|k: int| 0 <= k < i ==> url@[k] != ':',
        decreases n - i,
    {
        if url.get_char(i) == ':' {
            break;
        }
        i = i + 1;
    }
    proof {
        assert(i as int == first_colon(url@));
    }
    url.substring_char(0, i).to_owned()
}

/// Which kind of repository serves a url scheme.
pub open spec fn config_for_scheme(scheme: Seq<char>, address: Seq<char>) -> Option<
    RemoteConfigView,
> {
    if scheme == "tar"@ {
        Some(RemoteConfigView::Tar(address))
    } else if scheme == "file"@ || scheme == ""@ {
        Some(RemoteConfigView::Fs(address))
    } else if scheme == "http2"@ || scheme == "grpc"@ {
        Some(RemoteConfigView::Grpc(address))
    } else if scheme == "proxy"@ {
        Some(RemoteConfigView::Proxy(address))
    } else {
        None
    }
}

/// The address that a config connects to.
pub open spec fn config_address(c: RemoteConfigView) -> Seq<char> {
    match c {
        RemoteConfigView::Fs(a) => a,
        RemoteConfigView::Grpc(a) => a,
        RemoteConfigView::Tar(a) => a,
        RemoteConfigView::Proxy(a) => a,
    }
}

/// A remote config as plain values.
pub enum RemoteConfigView {
    Fs(Seq<char>),
    Grpc(Seq<char>),
    Tar(Seq<char>),
    Proxy(Seq<char>),
}

impl View for RemoteConfig {
    type V = RemoteConfigView;

    open spec fn view(&self) -> RemoteConfigView {
        match self {
            RemoteConfig::Fs { address } => RemoteConfigView::Fs(address@),
            RemoteConfig::Grpc { address } => RemoteConfigView::Grpc(address@),
            RemoteConfig::Tar { address } => RemoteConfigView::Tar(address@),
            RemoteConfig::Proxy { address } => RemoteConfigView::Proxy(address@),
        }
    }
}

fn str_eq(a: &str, b: &str) -> (r: bool)
    ensures
        r == (a@ == b@),
{
    crate::text::compare_paths(a, b) == 0
}

impl RemoteConfig {
    /// Parse a complete repository connection config from a url
    pub fn from_address(url: &str) -> (r: Result<RemoteConfig, ConfigError>)
        ensures
            config_for_scheme(scheme_of(url@), url@) matches Some(c) ==> (r matches Ok(rc) && rc@ == c),
            config_for_scheme(scheme_of(url@), url@) is None ==> (r matches Err(
                ConfigError::UnsupportedScheme { scheme },
            ) && scheme@ == scheme_of(url@)),
    {
        let scheme = url_scheme(url);
        proof {
            reveal_strlit("tar");
            reveal_strlit("file");
            reveal_strlit("");
            reveal_strlit("http2");
            reveal_strlit("grpc");
            reveal_strlit("proxy");
        }
        if str_eq(scheme.as_str(), "tar") {
            Ok(RemoteConfig::Tar { address: url.to_owned() })
        } else if str_eq(scheme.as_str(), "file") || str_eq(scheme.as_str(), "") {
            Ok(RemoteConfig::Fs { address: url.to_owned() })
        } else if str_eq(scheme.as_str(), "http2") || str_eq(scheme.as_str(), "grpc") {
            Ok(RemoteConfig::Grpc { address: url.to_owned() })
        } else if str_eq(scheme.as_str(), "proxy") {
            Ok(RemoteConfig::Proxy { address: url.to_owned() })
        } else {
            Err(ConfigError::UnsupportedScheme { scheme })
        }
    }

    /// Parse a complete repository connection from an address string
    pub fn from_str(address: &str) -> (r: Result<RemoteConfig, ConfigError>)
        ensures
            url_parse(address@) matches Err(k) ==> (r matches Err(ConfigError::InvalidUrl { address: a, kind })
                && a@ == address@ && kind@ == k),
            url_parse(address@) matches Ok(u) ==> match config_for_scheme(scheme_of(u), u) {
                Some(c) => r matches Ok(rc) && rc@ == c,
                None => r matches Err(ConfigError::UnsupportedScheme { scheme }) && scheme@
                    == scheme_of(u),
            },
    {
        match parse_url(address) {
            Ok(url) => RemoteConfig::from_address(url.as_str()),
            Err(kind) => Err(ConfigError::InvalidUrl { address: address.to_owned(), kind }),
        }
    }

    /// The address that this config connects to.
    pub fn address(&self) -> (r: &String)
        ensures
            r@ == config_address(self@),
    {
        match self {
            RemoteConfig::Fs { address } => address,
            RemoteConfig::Grpc { address } => address,
            RemoteConfig::Tar { address } => address,
            RemoteConfig::Proxy { address } => address,
        }
    }
}

/// A remote repository under its configured name.
pub struct NamedRemote {
    pub name: String,
    pub remote: Remote,
}

pub struct Config {
    pub user: User,
    pub storage: Storage,
    pub filesystem: Filesystem,
    /// The configured remotes; no name occurs twice.
    pub remote: Vec<NamedRemote>,
}

impl Default for Config {
    fn default() -> (c: Self)
        ensures
            c.remote@.len() == 0,
            c.filesystem.max_layers == DEFAULT_MAX_LAYERS,
    {
        Config {
            user: User::default(),
            storage: Storage::default(),
            filesystem: Filesystem::default(),
            remote: Vec::new(),
        }
    }
}

impl Config {
    /// No remote name occurs twice.
    pub open spec fn well_formed(&self) -> bool {
        forall|i: int, j: int|
            0 <= i < j < self.remote@.len() ==> #[trigger] self.remote@[i].name@
                != #[trigger] self.remote@[j].name@
    }

    /// True if a remote is configured under the name.
    pub open spec fn has_remote(&self, name: Seq<char>) -> bool {
        exists|i: int| 0 <= i < self.remote@.len() && #[trigger] self.remote@[i].name@ == name
    }

    /// The remote configured under the name (meaningful where `has_remote` holds).
    pub open spec fn remote_named(&self, name: Seq<char>) -> Remote {
        self.remote@[choose|i: int| 0 <= i < self.remote@.len() && #[trigger] self.remote@[i].name@ == name].remote
    }

    /// The connection config that opening `name_or_address` uses: the
    /// configured remote of that name, or else the string read as a url, or
    /// else as a path of the local file system.
    pub open spec fn remote_config_for(&self, name_or_address: Seq<char>) -> Result<
        RemoteConfigView,
        (),
    > {
        let url = if self.has_remote(name_or_address) {
            match self.remote_named(name_or_address) {
                Remote::Address(a) => Some(a.address@),
                Remote::Config(_) => None,
            }
        } else if url_parse(name_or_address) is Ok {
            Some(url_parse(name_or_address)->Ok_0)
        } else if url_parse("file:"@ + name_or_address) is Ok {
            Some(url_parse("file:"@ + name_or_address)->Ok_0)
        } else {
            None
        };
        if self.has_remote(name_or_address) && self.remote_named(name_or_address) is Config {
            Ok(self.remote_named(name_or_address)->Config_0@)
        } else {
            match url {
                Some(u) => match config_for_scheme(scheme_of(u), u) {
                    Some(c) => Ok(c),
                    None => Err(()),
                },
                None => Err(()),
            }
        }
    }

    /// The connection configs of all configured remote repositories, in the
    /// order in which they are configured.
    pub fn list_remotes(&self) -> (r: Result<Vec<RemoteConfig>, ConfigError>)
        requires
            self.well_formed(),
        ensures
            r matches Ok(v) ==> v@.len() == self.remote@.len() && forall|i: int|
                0 <= i < v@.len() ==> self.remote_config_for(#[trigger] self.remote@[i].name@)
                    == Ok::<RemoteConfigView, ()>(v@[i]@),
            r is Err ==> exists|i: int|
                0 <= i < self.remote@.len() && self.remote_config_for(
                    #[trigger] self.remote@[i].name@,
                ) is Err,
    {
        let mut out: Vec<RemoteConfig> = Vec::new();
        let mut i: usize = 0;
        while i < self.remote.len()
            invariant
                self.well_formed(),
                i <= self.remote@.len(),
                out@.len() == i,
                forall|k: int|
                    0 <= k < i ==> self.remote_config_for(#[trigger] self.remote@[k].name@)
                        == Ok::<RemoteConfigView, ()>(out@[k]@),
            decreases self.remote.len() - i,
        {
            match self.get_remote(self.remote[i].name.as_str()) {
                Ok(c) => out.push(c),
                Err(e) => return Err(e),
            }
            i = i + 1;
        }
        Ok(out)
    }

    /// List the names of all configured remote repositories.
    pub fn list_remote_names(&self) -> (names: Vec<String>)
        ensures
            names@.len() == self.remote@.len(),
            forall|i: int| 0 <= i < names@.len() ==> #[trigger] names@[i]@ == self.remote@[i].name@,
    {
        let mut names: Vec<String> = Vec::new();
        let mut i: usize = 0;
        while i < self.remote.len()
            invariant
                i <= self.remote@.len(),
                names@.len() == i,
                forall|k: int| 0 <= k < i ==> #[trigger] names@[k]@ == self.remote@[k].name@,
            decreases self.remote.len() - i,
        {
            names.push(self.remote[i].name.clone());
            i = i + 1;
        }
        names
    }

    /// The remote configured under the given name, if any.
    pub fn find_remote(&self, name: &str) -> (r: Option<&Remote>)
        requires
            self.well_formed(),
        ensures
            r is Some <==> self.has_remote(name@),
            r matches Some(rem) ==> *rem == self.remote_named(name@),
    {
        let mut i: usize = 0;
        while i < self.remote.len()
            invariant
                i <= self.remote@.len(),
                self.well_formed(),
                forall|k: int| 0 <= k < i ==> #[trigger] self.remote@[k].name@ != name@,
            decreases self.remote.len() - i,
        {
            if str_eq(self.remote[i].name.as_str(), name) {
                proof {
                    let j = choose|j: int|
                        0 <= j < self.remote@.len() && #[trigger] self.remote@[j].name@ == name@;
                    if j != i {
                        assert(self.remote@[j].name@ != self.remote@[i as int].name@);
                    }
                }
                return Some(&self.remote[i].remote);
            }
            i = i + 1;
        }
        None
    }

    /// Get the connection config of a remote repository by name or address:
    /// the configured remote of that name, or else the string as a url, or
    /// else as a local path (`file:` and the string).
    pub fn get_remote(&self, name_or_address: &str) -> (r: Result<RemoteConfig, ConfigError>)
        requires
            self.well_formed(),
        ensures
            r matches Ok(c) ==> self.remote_config_for(name_or_address@) == Ok::<
                RemoteConfigView,
                (),
            >(c@),
            r is Err ==> self.remote_config_for(name_or_address@) is Err,
    {
        proof {
            reveal_strlit("file:");
        }
        match self.find_remote(name_or_address) {
            Some(Remote::Address(remote)) => RemoteConfig::from_address(remote.address.as_str()),
            Some(Remote::Config(config)) => Ok(config.duplicate()),
            None => {
                let addr = match parse_url(name_or_address) {
                    Ok(addr) => addr,
                    Err(_) => {
                        let mut path = "file:".to_owned();
                        path.append(name_or_address);
                        match parse_url(path.as_str()) {
                            Ok(addr) => addr,
                            Err(kind) => {
                                return Err(ConfigError::InvalidUrl { address: path, kind });
                            },
                        }
                    },
                };
                RemoteConfig::from_address(addr.as_str())
            },
        }
    }
}

impl RemoteConfig {
    /// A copy of this config.
    pub fn duplicate(&self) -> (r: RemoteConfig)
        ensures
            r@ == self@,
    {
        match self {
            RemoteConfig::Fs { address } => RemoteConfig::Fs { address: address.clone() },
            RemoteConfig::Grpc { address } => RemoteConfig::Grpc { address: address.clone() },
            RemoteConfig::Tar { address } => RemoteConfig::Tar { address: address.clone() },
            RemoteConfig::Proxy { address } => RemoteConfig::Proxy { address: address.clone() },
        }
    }
}

} // verus!
