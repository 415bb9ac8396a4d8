//! Project paths and configuration values.

use vstd::prelude::*;
use vstd::string::*;
use crate::errors::ConfigError;

verus! {

/// The location where the configuration is stored.
#[derive(Debug, Clone, Copy, PartialEq, Eq, Structural, Hash)]
pub enum ConfigLocation {
    /// Use `foundry.toml`.
    Foundry,
    /// Use `reflections.toml`.
    Reflections,
}

/// `dir` with `name` appended as one more path component.
pub open spec fn spec_join_path(dir: Seq<char>, name: Seq<char>) -> Seq<char> {
    if dir.len() == 0 {
        name
    } else if dir.last() == '/' {
        dir + name
    } else {
        dir + seq!['/'] + name
    }
}

/// Append `name` to the directory path `dir`.
pub fn join_path(dir: &str, name: &str) -> (r: String)
    ensures
        r@ == spec_join_path(dir@, name@),
{
    let n = dir.unicode_len();
    if n == 0 {
        String::from_str(name)
    } else if dir.get_char(n - 1) == '/' {
        let mut r = String::from_str(dir);
        r.append(name);
        r
    } else {
        let mut r = String::from_str(dir);
        r.append("/");
        r.append(name);
        proof {
            reveal_strlit("/");
            assert("/"@ =~= seq!['/']);
            assert(r@ =~= dir@ + seq!['/'] + name@);
        }
        r
    }
}

/// The configuration file name a location demands.
pub open spec fn spec_config_file_name(location: ConfigLocation) -> Seq<char> {
    match location {
        ConfigLocation::Foundry => "foundry.toml"@,
        ConfigLocation::Reflections => "reflections.toml"@,
    }
}

/// The paths used by the tool, held as plain strings.  Resolving the project
/// root (environment, working directory, canonicalization) is the caller's
/// business; these functions only assemble paths under a given root.
#[derive(Debug, Clone, PartialEq, Eq, Hash)]
pub struct Paths {
    /// The root directory of the project.
    pub root: String,
    /// The path to the config file (`foundry.toml` or `reflections.toml`).
    pub config: String,
    /// The path to the remappings file (which need not exist).
    pub remappings: String,
}

impl Paths {
    /// The paths under `root` with the default config location.
    pub fn new(root: &str) -> (r: Self)
        ensures
            r.root@ == root@,
            r.config@ == spec_join_path(root@, spec_config_file_name(ConfigLocation::Foundry)),
            r.remappings@ == spec_join_path(root@, "remappings.txt"@),
    {
        Self::with_root_and_config(root, None)
    }

    /// The paths under `root`; a caller that has detected a config location
    /// passes it, and `None` falls back to `foundry.toml`.
    pub fn with_root_and_config(root: &str, config_location: Option<ConfigLocation>) -> (r: Self)
        ensures
            r.root@ == root@,
            r.config@ == spec_join_path(
                root@,
                spec_config_file_name(
                    match config_location {
                        Some(l) => l,
                        None => ConfigLocation::Foundry,
                    },
                ),
            ),
            r.remappings@ == spec_join_path(root@, "remappings.txt"@),
    {
        let config_name: &str = match config_location {
            Some(ConfigLocation::Reflections) => "reflections.toml",
            _ => "foundry.toml",
        };
        Paths {
            root: String::from_str(root),
            config: join_path(root, config_name),
            remappings: join_path(root, "remappings.txt"),
        }
    }
}

/// The code point of `c`, with an ASCII capital letter folded to its small
/// form.
pub open spec fn spec_ascii_lower(c: char) -> int {
    if 'A' <= c && c <= 'Z' {
        c as int + 32
    } else {
        c as int
    }
}

/// Character-wise equality up to ASCII case.
pub open spec fn spec_ascii_eq_ignore_case(a: Seq<char>, b: Seq<char>) -> bool {
    a.len() == b.len() && (forall|i: int|
        0 <= i < a.len() ==> spec_ascii_lower(a[i]) == spec_ascii_lower(b[i]))
}

/// Compare two strings ignoring ASCII case.
fn ascii_eq_ignore_case(a: &str, b: &str) -> (r: bool)
    ensures
        r == spec_ascii_eq_ignore_case(a@, b@),
{
    let n = a.unicode_len();
    if n != b.unicode_len() {
        return false;
    }
    let mut i: usize = 0;
    while i < n
        invariant
            n == a@.len(),
            n == b@.len(),
            i <= n,
            forall|j: int| 0 <= j < i ==> spec_ascii_lower(a@[j]) == spec_ascii_lower(b@[j]),
        decreases n - i,
    {
        let ca = a.get_char(i);
        let cb = b.get_char(i);
        let la: u32 = if 'A' <= ca && ca <= 'Z' {
            ca as u32 + 32
        } else {
            ca as u32
        };
        let lb: u32 = if 'A' <= cb && cb <= 'Z' {
            cb as u32 + 32
        } else {
            cb as u32
        };
        if la != lb {
            return false;
        }
        i += 1;
    }
    true
}

impl ConfigLocation {
    /// Parse a config location name, ignoring ASCII case: `foundry` and
    /// `reflections` are the two accepted names, and anything else is an
    /// invalid-location error naming the input.
    pub fn parse_location(s: &str) -> (r: Result<ConfigLocation, ConfigError>)
        ensures
            r == Ok::<ConfigLocation, ConfigError>(ConfigLocation::Foundry)
                <==> spec_ascii_eq_ignore_case(s@, "foundry"@),
            r == Ok::<ConfigLocation, ConfigError>(ConfigLocation::Reflections)
                <==> spec_ascii_eq_ignore_case(s@, "reflections"@),
            r matches Err(e) ==> e matches ConfigError::InvalidLocation(m) && m@ == s@,
    {
        proof {
            reveal_strlit("foundry");
            reveal_strlit("reflections");
            assert("foundry"@.len() == 7 && "reflections"@.len() == 11);
        }
        if ascii_eq_ignore_case(s, "foundry") {
            Ok(ConfigLocation::Foundry)
        } else if ascii_eq_ignore_case(s, "reflections") {
            Ok(ConfigLocation::Reflections)
        } else {
            Err(ConfigError::InvalidLocation(String::from_str(s)))
        }
    }
}

impl core::str::FromStr for ConfigLocation {
    type Err = ConfigError;

    fn from_str(s: &str) -> Result<Self, Self::Err> {
        Self::parse_location(s)
    }
}

/// The tool's configuration values.
#[derive(Debug, Clone, PartialEq, Eq)]
pub struct ReflectionsConfig {
    /// OpenZeppelin contracts version.
    pub openzeppelin_version: String,
    /// zkSync-OS repository URL.
    pub zksync_os_url: String,
}

/// The default OpenZeppelin contracts version.
pub fn default_openzeppelin_version() -> (r: String)
    ensures
        r@ == "v5.1.0"@,
{
    String::from_str("v5.1.0")
}

/// The default zkSync-OS repository URL.
pub fn default_zksync_os_url() -> (r: String)
    ensures
        r@ == "https://github.com/matter-labs/zksync-os"@,
{
    String::from_str("https://github.com/matter-labs/zksync-os")
}

/// What the scaffolding step writes to `.gitignore`: a missing file gets the
/// template; a file that already holds a `# Reflections` entry is left
/// alone; any other file gets the template appended after a blank line.
pub open spec fn spec_updated_gitignore(
    existing: Option<Seq<char>>,
    template: Seq<char>,
) -> Option<Seq<char>> {
    match existing {
        None => Some(template),
        Some(g) => if crate::text::spec_contains(g, "# Reflections"@) {
            None
        } else {
            Some(g + "\n\n"@ + template)
        },
    }
}

/// Compute the new `.gitignore` contents, as [`spec_updated_gitignore`]
/// describes; `None` means the file is to be left as it stands.
pub fn updated_gitignore(existing: Option<&String>, template: &str) -> (r: Option<String>)
    ensures
        match r {
            Some(s) => spec_updated_gitignore(
                match existing {
                    Some(g) => Some(g@),
                    None => None,
                },
                template@,
            ) == Some(s@),
            None => spec_updated_gitignore(
                match existing {
                    Some(g) => Some(g@),
                    None => None,
                },
                template@,
            ) is None,
        },
{
    match existing {
        None => Some(String::from_str(template)),
        Some(g) => {
            if crate::text::contains_sub(g.as_str(), "# Reflections") {
                None
            } else {
                let mut out = String::from_str(g.as_str());
                out.append("\n\n");
                out.append(template);
                Some(out)
            }
        },
    }
}

impl Default for ReflectionsConfig {
    /// The default configuration values.
    fn default() -> (r: Self)
        ensures
            r.openzeppelin_version@ == "v5.1.0"@,
            r.zksync_os_url@ == "https://github.com/matter-labs/zksync-os"@,
    {
        ReflectionsConfig {
            openzeppelin_version: default_openzeppelin_version(),
            zksync_os_url: default_zksync_os_url(),
        }
    }
}

} // verus!
