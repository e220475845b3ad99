//! The command line: which command to run and the installer's options.
use vstd::prelude::*;
use crate::installer::{InstallOptions, strings_view, opt_view};
use crate::text::{chars_of, equals_str};

verus! {

/// What the command line asks for.
#[derive(Clone, Debug, PartialEq, Eq)]
pub enum Command {
    /// Edit the Caddyfile of the current directory.
    Edit,
    /// Show the program's help.
    Help,
    /// Install Caddy with these options.
    InstallCaddy(InstallOptions),
    /// Show the installer's help.
    InstallHelp,
}

/// A command line that cannot be run.
#[derive(Clone, Debug, PartialEq, Eq)]
pub enum CliError {
    /// The first argument is not a known command.
    UnknownCommand(String),
    /// `--bin-dir` is the last argument.
    MissingBinDir,
    /// An installer argument is not a known option.
    UnknownInstallOption(String),
}

/// What the installer's arguments from index `i` on ask for, with `bin` the
/// directory named so far: the options, the installer's help (`-h` and
/// `--help` stop at once), or the error.
pub enum InstallArgs {
    Options(Option<Seq<char>>),
    Help,
    MissingBinDir,
    Unknown(Seq<char>),
}

pub open spec fn install_args(args: Seq<Seq<char>>, i: int, bin: Option<Seq<char>>) -> InstallArgs
    decreases args.len() - i,
{
    if i < 0 || i >= args.len() {
        InstallArgs::Options(bin)
    } else if args[i] == "--bin-dir"@ {
        if i + 1 >= args.len() {
            InstallArgs::MissingBinDir
        } else {
            install_args(args, i + 2, Some(args[i + 1]))
        }
    } else if args[i] == "-h"@ || args[i] == "--help"@ {
        InstallArgs::Help
    } else {
        InstallArgs::Unknown(args[i])
    }
}

/// The result of parsing installer arguments agrees with [`install_args`].
pub open spec fn install_result_matches(r: Result<Command, CliError>, expected: InstallArgs) -> bool {
    match expected {
        InstallArgs::Options(bin) => r matches Ok(Command::InstallCaddy(o)) && opt_view(o.bin_dir) == bin,
        InstallArgs::Help => r matches Ok(Command::InstallHelp),
        InstallArgs::MissingBinDir => r matches Err(CliError::MissingBinDir),
        InstallArgs::Unknown(a) => r matches Err(CliError::UnknownInstallOption(u)) && u@ == a,
    }
}

fn parse_install_from(args: &[String], start: usize) -> (r: Result<Command, CliError>)
    requires
        start <= args@.len(),
    ensures
        install_result_matches(r, install_args(strings_view(args@), start as int, None)),
{
    let ghost av = strings_view(args@);
    let mut bin: Option<String> = None;
    let mut i = start;
    let n = args.len();
    while i < n
        invariant
            start <= i <= n,
            n == args@.len(),
            av == strings_view(args@),
            install_args(av, i as int, opt_view(bin)) == install_args(av, start as int, None),
        decreases n - i,
    {
        let a = chars_of(args[i].as_str());
        assert(a@ == av[i as int]);
        if equals_str(&a, "--bin-dir") {
            if i + 1 >= n {
                return Err(CliError::MissingBinDir);
            }
            bin = Some(args[i + 1].clone());
            i = i + 2;
        } else if equals_str(&a, "-h") || equals_str(&a, "--help") {
            return Ok(Command::InstallHelp);
        } else {
            return Err(CliError::UnknownInstallOption(args[i].clone()));
        }
    }
    Ok(Command::InstallCaddy(InstallOptions { bin_dir: bin }))
}

/// Reads the installer's arguments: `--bin-dir PATH` (the last one counts),
/// or `-h`/`--help`.
pub fn parse_install_options(args: &[String]) -> (r: Result<Command, CliError>)
    ensures
        install_result_matches(r, install_args(strings_view(args@), 0, None)),
{
    parse_install_from(args, 0)
}

/// Reads the command line (without the program name): no argument edits the
/// Caddyfile, `install-caddy` installs Caddy with the options that follow,
/// and `-h`, `--help` or `help` show the help.
pub fn parse_command(args: &[String]) -> (r: Result<Command, CliError>)
    ensures
        args@.len() == 0 ==> r matches Ok(Command::Edit),
        args@.len() > 0 ==> {
            let first = args@[0]@;
            if first == "install-caddy"@ {
                install_result_matches(r, install_args(strings_view(args@), 1, None))
            } else if first == "-h"@ || first == "--help"@ || first == "help"@ {
                r matches Ok(Command::Help)
            } else {
                r matches Err(CliError::UnknownCommand(c)) && c@ == first
            }
        },
{
    if args.len() == 0 {
        return Ok(Command::Edit);
    }
    let first = chars_of(args[0].as_str());
    if equals_str(&first, "install-caddy") {
        parse_install_from(args, 1)
    } else if equals_str(&first, "-h") || equals_str(&first, "--help") || equals_str(&first, "help") {
        Ok(Command::Help)
    } else {
        Err(CliError::UnknownCommand(args[0].clone()))
    }
}

} // verus!
