//! The command line: the mode, the files, and the options.

use crate::text::{chars_of, extend_chars, spells, string_of};
use vstd::prelude::*;

verus! {

/// What the program is asked to do.
#[derive(Clone, Copy, Debug, PartialEq, Eq, Structural)]
pub enum Mode {
    Predict,
    Train,
}

/// A command line that was understood.
#[derive(Debug)]
pub struct Config {
    pub mode: Mode,
    /// The file that holds the network.
    pub loadfile: String,
    /// The file that holds the chessboards.
    pub chessfile: String,
    /// The file to save the trained network to.
    pub savefile: Option<String>,
    /// The file that holds the training configuration.
    pub configfile: Option<String>,
}

/// What has been read of a command line.
pub struct Command {
    pub mode: Option<Mode>,
    pub loadfile: Option<Seq<char>>,
    pub chessfile: Option<Seq<char>>,
    pub savefile: Option<Seq<char>>,
    pub configfile: Option<Seq<char>>,
}

/// Why a command line was not understood.
pub enum CommandError {
    NotEnoughArguments,
    /// A mode is given twice.
    TwoModes,
    /// `--save` is the last argument.
    SaveWithoutName,
    /// `--config` is the last argument.
    ConfigWithoutName,
    /// A third file is named.
    Unexpected(Seq<char>),
    NoMode,
    NoLoadfile,
    NoChessfile,
    /// `--save` is given in prediction mode.
    SaveInPrediction,
}

impl CommandError {
    /// The text of the error.
    pub open spec fn message(self) -> Seq<char> {
        match self {
            CommandError::NotEnoughArguments => "Not enough arguments"@,
            CommandError::TwoModes => "Cannot specify both --predict and --train"@,
            CommandError::SaveWithoutName => "--save requires a filename"@,
            CommandError::ConfigWithoutName => "--config requires a filename"@,
            CommandError::Unexpected(argument) => "Unexpected argument: "@ + argument,
            CommandError::NoMode => "Mode not specified (use --predict or --train)"@,
            CommandError::NoLoadfile => "LOADFILE not specified"@,
            CommandError::NoChessfile => "CHESSFILE not specified"@,
            CommandError::SaveInPrediction => "--save can only be used with --train"@,
        }
    }
}

/// What is read of the arguments `args[at..]` after `so_far`. `--predict`
/// and `--train` set the mode, which may be set once; `--save` and
/// `--config` take the argument after them as a file name; any other
/// argument names the file of the network, and after that the file of the
/// chessboards.
pub open spec fn scan(args: Seq<Seq<char>>, at: int, so_far: Command) -> Result<
    Command,
    CommandError,
>
    decreases args.len() - at,
{
    if at < 0 || at >= args.len() {
        Ok(so_far)
    } else if args[at] == "--predict"@ || args[at] == "--train"@ {
        if so_far.mode is Some {
            Err(CommandError::TwoModes)
        } else {
            let mode = if args[at] == "--predict"@ {
                Mode::Predict
            } else {
                Mode::Train
            };
            scan(args, at + 1, Command { mode: Some(mode), ..so_far })
        }
    } else if args[at] == "--save"@ {
        if at + 1 >= args.len() {
            Err(CommandError::SaveWithoutName)
        } else {
            scan(args, at + 2, Command { savefile: Some(args[at + 1]), ..so_far })
        }
    } else if args[at] == "--config"@ {
        if at + 1 >= args.len() {
            Err(CommandError::ConfigWithoutName)
        } else {
            scan(args, at + 2, Command { configfile: Some(args[at + 1]), ..so_far })
        }
    } else if so_far.loadfile is None {
        scan(args, at + 1, Command { loadfile: Some(args[at]), ..so_far })
    } else if so_far.chessfile is None {
        scan(args, at + 1, Command { chessfile: Some(args[at]), ..so_far })
    } else {
        Err(CommandError::Unexpected(args[at]))
    }
}

/// A command line of which nothing has been read.
pub open spec fn nothing_read() -> Command {
    Command { mode: None, loadfile: None, chessfile: None, savefile: None, configfile: None }
}

/// What the command line `args` asks for, the name of the program being
/// its first argument. At least three arguments follow that name; a mode
/// and both files are given; and a file to save to only in training mode.
pub open spec fn command(args: Seq<Seq<char>>) -> Result<Command, CommandError> {
    if args.len() < 4 {
        Err(CommandError::NotEnoughArguments)
    } else {
        match scan(args, 1, nothing_read()) {
            Err(e) => Err(e),
            Ok(read) => if read.mode is None {
                Err(CommandError::NoMode)
            } else if read.loadfile is None {
                Err(CommandError::NoLoadfile)
            } else if read.chessfile is None {
                Err(CommandError::NoChessfile)
            } else if read.savefile is Some && read.mode == Some(Mode::Predict) {
                Err(CommandError::SaveInPrediction)
            } else {
                Ok(read)
            },
        }
    }
}

/// Whether the command line asks for the help text: its first argument
/// after the name of the program is `--help` or `-h`.
pub open spec fn asks_help(args: Seq<Seq<char>>) -> bool {
    args.len() > 1 && (args[1] == "--help"@ || args[1] == "-h"@)
}

/// The characters of an optional string.
pub open spec fn optional_view(s: Option<String>) -> Option<Seq<char>> {
    match s {
        Some(s) => Some(s@),
        None => None,
    }
}

/// The characters of each of the strings `args`.
pub open spec fn arguments(args: Seq<String>) -> Seq<Seq<char>> {
    Seq::new(args.len(), |i: int| args[i]@)
}

impl Config {
    /// What the configuration says, read as a command.
    pub open spec fn as_command(&self) -> Command {
        Command {
            mode: Some(self.mode),
            loadfile: Some(self.loadfile@),
            chessfile: Some(self.chessfile@),
            savefile: optional_view(self.savefile),
            configfile: optional_view(self.configfile),
        }
    }

    /// Whether the command line asks for the help text.
    pub fn wants_help(args: &Vec<String>) -> (b: bool)
        ensures
            b == asks_help(arguments(args@)),
    {
        if args.len() > 1 {
            let first = chars_of(args[1].as_str());
            spells(&first, "--help") || spells(&first, "-h")
        } else {
            false
        }
    }

    /// Reads the command line `args`, of which the first argument is the
    /// name of the program. Returns no configuration where the command
    /// line asks for the help text, whatever else it holds: the caller
    /// then shows that text and is done.
    pub fn parse(args: &Vec<String>) -> (r: Result<Option<Config>, String>)
        ensures
            asks_help(arguments(args@)) ==> r is Ok && r->Ok_0 is None,
            !asks_help(arguments(args@)) ==> match command(arguments(args@)) {
                Ok(read) => r is Ok && r->Ok_0 is Some && r->Ok_0->Some_0.as_command() == read,
                Err(e) => r is Err && r->Err_0@ == e.message(),
            },
    {
        let ghost all = arguments(args@);
        if Self::wants_help(args) {
            return Ok(None);
        }
        if args.len() < 4 {
            return Err(String::from_str("Not enough arguments"));
        }
        let mut mode: Option<Mode> = None;
        let mut savefile: Option<String> = None;
        let mut configfile: Option<String> = None;
        let mut loadfile: Option<String> = None;
        let mut chessfile: Option<String> = None;
        let mut i: usize = 1;
        while i < args.len()
            invariant
                1 <= i,
                args.len() >= 4,
                all == arguments(args@),
                !asks_help(all),
                scan(all, 1, nothing_read()) == scan(
                    all,
                    i as int,
                    Command {
                        mode,
                        loadfile: optional_view(loadfile),
                        chessfile: optional_view(chessfile),
                        savefile: optional_view(savefile),
                        configfile: optional_view(configfile),
                    },
                ),
            decreases args.len() - i,
        {
            let argument = chars_of(args[i].as_str());
            assert(all[i as int] == argument@);
            let predict = spells(&argument, "--predict");
            if predict || spells(&argument, "--train") {
                if mode.is_some() {
                    return Err(String::from_str("Cannot specify both --predict and --train"));
                }
                mode = Some(
                    if predict {
                        Mode::Predict
                    } else {
                        Mode::Train
                    },
                );
                i += 1;
            } else if spells(&argument, "--save") {
                if i + 1 >= args.len() {
                    return Err(String::from_str("--save requires a filename"));
                }
                assert(all[i + 1] == args@[i + 1]@);
                savefile = Some(args[i + 1].clone());
                i += 2;
            } else if spells(&argument, "--config") {
                if i + 1 >= args.len() {
                    return Err(String::from_str("--config requires a filename"));
                }
                assert(all[i + 1] == args@[i + 1]@);
                configfile = Some(args[i + 1].clone());
                i += 2;
            } else if loadfile.is_none() {
                loadfile = Some(args[i].clone());
                i += 1;
            } else if chessfile.is_none() {
                chessfile = Some(args[i].clone());
                i += 1;
            } else {
                let mut message = chars_of("Unexpected argument: ");
                extend_chars(&mut message, &argument);
                return Err(string_of(&message));
            }
        }
        let mode = match mode {
            Some(mode) => mode,
            None => {
                return Err(String::from_str("Mode not specified (use --predict or --train)"));
            },
        };
        let loadfile = match loadfile {
            Some(loadfile) => loadfile,
            None => {
                return Err(String::from_str("LOADFILE not specified"));
            },
        };
        let chessfile = match chessfile {
            Some(chessfile) => chessfile,
            None => {
                return Err(String::from_str("CHESSFILE not specified"));
            },
        };
        if savefile.is_some() && mode == Mode::Predict {
            return Err(String::from_str("--save can only be used with --train"));
        }
        Ok(Some(Config { mode, loadfile, chessfile, savefile, configfile }))
    }
}

} // verus!
