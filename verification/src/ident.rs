//! Package identifiers, builds and components.
use vstd::prelude::*;

use crate::text::push_char;

verus! {

/// The build of a package.
#[derive(Debug)]
pub enum Build {
    /// The package's source
    Source,
    /// A package that is provided by another package
    Embedded,
    /// A binary build, named by its digest
    Digest(String),
}

pub open spec fn build_text(b: Build) -> Seq<char> {
    match b {
        Build::Source => "src"@,
        Build::Embedded => "embedded"@,
        Build::Digest(d) => d@,
    }
}

impl Build {
    /// The displayed form of this build.
    pub fn to_string(&self) -> (s: String)
        ensures
            s@ == build_text(*self),
    {
        match self {
            Build::Source => "src".to_owned(),
            Build::Embedded => "embedded".to_owned(),
            Build::Digest(d) => d.clone(),
        }
    }

    pub fn duplicate(&self) -> (b: Build)
        ensures
            build_text(b) == build_text(*self),
            b is Source <==> *self is Source,
            b is Embedded <==> *self is Embedded,
    {
        match self {
            Build::Source => Build::Source,
            Build::Embedded => Build::Embedded,
            Build::Digest(d) => Build::Digest(d.clone()),
        }
    }
}

/// Identifies a package: its name and version, and maybe a build.
#[derive(Debug)]
pub struct Ident {
    pub name: String,
    pub version: String,
    pub build: Option<Build>,
}

/// The displayed form of an identifier: `name/version`, then `/build` if it has one.
pub open spec fn ident_text(name: Seq<char>, version: Seq<char>, build: Option<Build>) -> Seq<char> {
    let base = name + seq!['/'] + version;
    match build {
        Some(b) => base + seq!['/'] + build_text(b),
        None => base,
    }
}

impl Ident {
    pub open spec fn text(&self) -> Seq<char> {
        ident_text(self.name@, self.version@, self.build)
    }

    /// The displayed form of this identifier.
    pub fn to_string(&self) -> (s: String)
        ensures
            s@ == self.text(),
    {
        let mut s = self.name.clone();
        push_char(&mut s, '/');
        s.append(self.version.as_str());
        match &self.build {
            Some(b) => {
                push_char(&mut s, '/');
                s.append(b.to_string().as_str());
            },
            None => {},
        }
        s
    }

    /// The same package and version with the given build.
    pub fn with_build(&self, build: Option<Build>) -> (r: Ident)
        ensures
            r.name@ == self.name@,
            r.version@ == self.version@,
            r.build == build,
    {
        Ident { name: self.name.clone(), version: self.version.clone(), build }
    }
}

/// A named part of a package.
#[derive(Debug)]
pub enum Component {
    All,
    Run,
    Build,
    Source,
    Named(String),
}

/// A character that may appear in a component name.
pub open spec fn is_component_char(c: char) -> bool {
    ('a' <= c && c <= 'z') || ('0' <= c && c <= '9') || c == '-'
}

pub open spec fn component_text(c: Component) -> Seq<char> {
    match c {
        Component::All => "all"@,
        Component::Run => "run"@,
        Component::Build => "build"@,
        Component::Source => "src"@,
        Component::Named(n) => n@,
    }
}

/// What parsing a component name gives: one of the reserved names, or a
/// named component whose name is made of lower case letters, digits and `-`.
pub open spec fn parse_component(s: Seq<char>) -> Option<Component> {
    if s == "all"@ {
        Some(Component::All)
    } else if s == "run"@ {
        Some(Component::Run)
    } else if s == "build"@ {
        Some(Component::Build)
    } else if s == "src"@ {
        Some(Component::Source)
    } else {
        None
    }
}

/// A name is a valid named component.
pub open spec fn is_component_name(s: Seq<char>) -> bool {
    s.len() > 0 && forall|i: int| 0 <= i < s.len() ==> is_component_char(#[trigger] s[i])
}

fn str_eq(a: &str, b: &str) -> (r: bool)
    ensures
        r == (a@ == b@),
{
    crate::text::compare_paths(a, b) == 0
}

fn is_component_name_exec(s: &str) -> (r: bool)
    ensures
        r == is_component_name(s@),
{
    let n = s.unicode_len();
    if n == 0 {
        return false;
    }
    let mut i: usize = 0;
    while i < n
        invariant
            n == s@.len(),
            i <= n,
            forall|k: int| 0 <= k < i ==> is_component_char(#[trigger] s@[k]),
        decreases n - i,
    {
        let c = s.get_char(i);
        if !(('a' <= c && c <= 'z') || ('0' <= c && c <= '9') || c == '-') {
            return false;
        }
        i = i + 1;
    }
    true
}

impl Component {
    /// Parses a component name.
    pub fn parse(s: &str) -> (r: Option<Component>)
        ensures
            parse_component(s@) matches Some(c) ==> r matches Some(rc) && component_text(rc)
                == component_text(c) && (rc is Named <==> c is Named),
            parse_component(s@) is None ==> (r is Some <==> is_component_name(s@)),
            parse_component(s@) is None ==> (r matches Some(rc) ==> rc matches Component::Named(n)
                && n@ == s@),
    {
        proof {
            reveal_strlit("all");
            reveal_strlit("run");
            reveal_strlit("build");
            reveal_strlit("src");
        }
        if str_eq(s, "all") {
            Some(Component::All)
        } else if str_eq(s, "run") {
            Some(Component::Run)
        } else if str_eq(s, "build") {
            Some(Component::Build)
        } else if str_eq(s, "src") {
            Some(Component::Source)
        } else if is_component_name_exec(s) {
            Some(Component::Named(s.to_owned()))
        } else {
            None
        }
    }

    /// The name of this component.
    pub fn as_string(&self) -> (s: String)
        ensures
            s@ == component_text(*self),
    {
        match self {
            Component::All => "all".to_owned(),
            Component::Run => "run".to_owned(),
            Component::Build => "build".to_owned(),
            Component::Source => "src".to_owned(),
            Component::Named(n) => n.clone(),
        }
    }

    pub fn is_source(&self) -> (r: bool)
        ensures
            r == (*self is Source),
    {
        match self {
            Component::Source => true,
            _ => false,
        }
    }

    pub fn is_run(&self) -> (r: bool)
        ensures
            r == (*self is Run),
    {
        match self {
            Component::Run => true,
            _ => false,
        }
    }
}

} // verus!
