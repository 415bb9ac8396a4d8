//! The commands the tool offers and their settings.  The command-line layer
//! parses arguments into copies of these types; the defaults here are the
//! ones the command line gives.

use vstd::prelude::*;
use vstd::string::*;

verus! {

/// Settings of the collect command: gather contract ABIs from build
/// artifacts and group them by a NatSpec tag.
#[derive(Debug, Clone)]
pub struct Collect {
    /// Path to the build output directory, relative to the project root.
    pub artifacts_dir: String,
    /// Output file for the collected ABIs.
    pub output: String,
    /// NatSpec tag used for grouping (`@title`, `@notice` or
    /// `@custom:<key>`).
    pub tag: String,
}

impl Default for Collect {
    /// The default collect settings.
    fn default() -> (r: Self)
        ensures
            r.artifacts_dir@ == "out"@,
            r.output@ == "abis.json"@,
            r.tag@ == "@custom:swagger"@,
    {
        Collect {
            artifacts_dir: String::from_str("out"),
            output: String::from_str("abis.json"),
            tag: String::from_str("@custom:swagger"),
        }
    }
}

/// Settings of the generate command: derive a Solidity registry library
/// from the contracts found under a source directory.
#[derive(Debug, Clone)]
pub struct Generate {
    /// Path to the contracts directory, relative to the project root.
    pub contracts_dir: String,
    /// Output file for the generated library.
    pub output: String,
    /// Name of the generated library.
    pub library_name: String,
    /// SPDX license identifier for the generated file.
    pub license: String,
    /// Solidity version pragma for the generated file.
    pub solidity_version: String,
}

impl Default for Generate {
    /// The default generate settings.
    fn default() -> (r: Self)
        ensures
            r.contracts_dir@ == "src"@,
            r.output@ == "scripts/reflections/di/libraries/Sources.s.sol"@,
            r.library_name@ == "Sources"@,
            r.license@ == "MIT"@,
            r.solidity_version@ == "^0.8.24"@,
    {
        Generate {
            contracts_dir: String::from_str("src"),
            output: String::from_str("scripts/reflections/di/libraries/Sources.s.sol"),
            library_name: String::from_str("Sources"),
            license: String::from_str("MIT"),
            solidity_version: String::from_str("^0.8.24"),
        }
    }
}

/// Settings of the init command: scaffold a project to use the tool.
#[derive(Debug, Clone)]
pub struct Init {
    /// Remove previous scaffolding before re-initializing.
    pub clean: bool,
    /// OpenZeppelin contracts version to record.
    pub openzeppelin_version: String,
    /// zkSync-OS repository URL to record.
    pub zksync_os_url: String,
}

impl Default for Init {
    /// The default init settings.
    fn default() -> (r: Self)
        ensures
            !r.clean,
            r.openzeppelin_version@ == "v5.1.0"@,
            r.zksync_os_url@ == "https://github.com/matter-labs/zksync-os"@,
    {
        Init {
            clean: false,
            openzeppelin_version: crate::config::default_openzeppelin_version(),
            zksync_os_url: crate::config::default_zksync_os_url(),
        }
    }
}

/// Settings of the serve command: serve the synthesized API description for
/// a collected ABI file.
#[derive(Debug, Clone)]
pub struct Serve {
    /// Path to the collected ABIs file, relative to the project root.
    pub input: String,
    /// Port to serve on.
    pub port: u16,
    /// Host to bind to.
    pub host: String,
}

impl Default for Serve {
    /// The default serve settings.
    fn default() -> (r: Self)
        ensures
            r.input@ == "abis.json"@,
            r.port == 3000u16,
            r.host@ == "127.0.0.1"@,
    {
        Serve {
            input: String::from_str("abis.json"),
            port: 3000,
            host: String::from_str("127.0.0.1"),
        }
    }
}

/// Settings of the version command, which prints the tool's version.
#[derive(Debug, Clone, Default)]
pub struct Version {}

/// The available commands.
#[derive(Debug, Clone)]
pub enum Command {
    /// Initialize a project.
    Init(Init),
    /// Generate the Solidity registry library.
    Generate(Generate),
    /// Collect contract ABIs.
    Collect(Collect),
    /// Serve the synthesized API description.
    Serve(Serve),
    /// Print the version.
    Version(Version),
}

} // verus!
