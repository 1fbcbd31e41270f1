//! The command-line surface as data: the three subcommands with their
//! options, and the choice of server. Argument parsing, prompting and I/O
//! belong to the front end; the library only answers what a parsed command
//! line says.

use crate::configuration::StegoWaveLib;
use crate::grpc::GrpcConfig;
use crate::rest::RestConfig;
use vstd::prelude::*;
use vstd::string::StringExecFns;

verus! {

/// Which server a command should talk to.
#[derive(Clone, Copy, PartialEq, Eq, Structural, Debug)]
pub enum StegoWaveServer {
    GRPC,
    REST,
    Auto,
}

/// Which audio format a command works on.
#[derive(Clone, Copy, PartialEq, Eq, Structural, Debug)]
pub enum StegoWaveFormat {
    WAV16,
}

impl StegoWaveFormat {
    /// The format tag sent to a server.
    pub fn as_tag(&self) -> (r: String)
        ensures
            self is WAV16 ==> r@ == "wav16"@,
    {
        match self {
            StegoWaveFormat::WAV16 => String::from_str("wav16"),
        }
    }
}

/// The options every subcommand shares.
pub struct CommonFields {
    pub input_file: Option<String>,
    pub format: StegoWaveFormat,
    pub server: StegoWaveServer,
    pub start_server: bool,
    pub lsb_deep: u8,
    pub config: String,
}

/// The hide subcommand: a message to hide and where to put the result.
pub struct HideCommand {
    pub message: String,
    pub command: CommonFields,
    pub output_file: Option<String>,
}

/// The extract subcommand.
pub struct ExtractCommand {
    pub command: CommonFields,
}

/// The clear subcommand: where to put the cleaned audio.
pub struct ClearCommand {
    pub command: CommonFields,
    pub output_file: Option<String>,
}

/// One parsed subcommand.
pub enum Commands {
    Hide(HideCommand),
    Extract(ExtractCommand),
    Clear(ClearCommand),
}

impl Commands {
    /// The options shared by whichever subcommand this is.
    pub open spec fn spec_common(self) -> CommonFields {
        match self {
            Commands::Hide(h) => h.command,
            Commands::Extract(extract) => extract.command,
            Commands::Clear(clear) => clear.command,
        }
    }
}

/// A parsed command line.
pub struct Cli {
    pub commands: Commands,
}

impl Cli {
    pub fn get_command(&self) -> (r: &Commands)
        ensures
            *r == self.commands,
    {
        &self.commands
    }

    /// The server choice of whichever subcommand was given.
    pub fn get_server(&self) -> (r: StegoWaveServer)
        ensures
            r == self.commands.spec_common().server,
    {
        match self.get_command() {
            Commands::Hide(h) => h.command.server,
            Commands::Extract(extract) => extract.command.server,
            Commands::Clear(clear) => clear.command.server,
        }
    }

    /// Whether the server should be started when none answers.
    pub fn get_start_server(&self) -> (r: bool)
        ensures
            r == self.commands.spec_common().start_server,
    {
        match self.get_command() {
            Commands::Hide(h) => h.command.start_server,
            Commands::Extract(extract) => extract.command.start_server,
            Commands::Clear(clear) => clear.command.start_server,
        }
    }

    /// The configuration file path the command names.
    pub fn get_file_config(&self) -> (r: &str)
        ensures
            r@ == self.commands.spec_common().config@,
    {
        match self.get_command() {
            Commands::Hide(h) => h.command.config.as_str(),
            Commands::Extract(extract) => extract.command.config.as_str(),
            Commands::Clear(clear) => clear.command.config.as_str(),
        }
    }
}

/// The configuration of the command-line front end: both server addresses
/// and the codec settings.
pub struct Settings {
    pub rest: RestConfig,
    pub grpc: GrpcConfig,
    pub stego_wave_lib: StegoWaveLib,
}

} // verus!
