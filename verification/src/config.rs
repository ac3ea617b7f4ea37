//! The run's configuration: the fixed extension pair selected by the
//! `--invert` toggle, the usage text, and the scanning of command-line
//! arguments into a toggle and an optional root argument. Resolving the root
//! against the working directory and checking that it is a directory are
//! filesystem work and stay with the surrounding binary.

use vstd::prelude::*;
use vstd::string::*;

use crate::order::path_views;
use crate::text::str_eq;

verus! {

/// The run's immutable configuration: the resolved root directory and the
/// direction toggle.
pub struct Config {
    pub root: String,
    pub invert: bool,
}

/// A configuration failure: an error to report beside the usage text, or an
/// explicit request for help.
#[derive(Debug)]
pub enum ConfigError {
    Message(String),
    Help(String),
}

/// Spec-level image of a [`ConfigError`].
pub enum ConfigErrorModel {
    Message(Seq<char>),
    Help(Seq<char>),
}

impl View for ConfigError {
    type V = ConfigErrorModel;

    open spec fn view(&self) -> ConfigErrorModel {
        match self {
            ConfigError::Message(m) => ConfigErrorModel::Message(m@),
            ConfigError::Help(h) => ConfigErrorModel::Help(h@),
        }
    }
}

/// What argument scanning yielded: the direction toggle and the root
/// argument, if one was given.
pub struct ParsedArgs {
    pub invert: bool,
    pub root: Option<String>,
}

/// Spec-level image of a [`ParsedArgs`].
pub struct ParsedArgsModel {
    pub invert: bool,
    pub root: Option<Seq<char>>,
}

/// The spec-level image of an optional root argument.
pub open spec fn opt_path_view(o: Option<String>) -> Option<Seq<char>> {
    match o {
        Some(p) => Some(p@),
        None => None,
    }
}

impl View for ParsedArgs {
    type V = ParsedArgsModel;

    open spec fn view(&self) -> ParsedArgsModel {
        ParsedArgsModel { invert: self.invert, root: opt_path_view(self.root) }
    }
}

/// The usage text.
pub open spec fn spec_usage() -> Seq<char> {
    "Usage: r3dy [--invert] [path]\n\nRenames .NEV files to .R3D (or vice versa with --invert) within the given path."@
}

/// The extension renamed away from: the toggle swaps the fixed pair.
pub open spec fn spec_source_extension(invert: bool) -> Seq<char> {
    if invert {
        "R3D"@
    } else {
        "NEV"@
    }
}

/// The extension renamed to: always the other member of the fixed pair.
pub open spec fn spec_target_extension(invert: bool) -> Seq<char> {
    if invert {
        "NEV"@
    } else {
        "R3D"@
    }
}

/// The source and target extensions are distinct, whichever way the toggle
/// points: a rename never maps a file onto its own name.
pub proof fn lemma_extensions_differ(invert: bool)
    ensures
        spec_source_extension(invert) != spec_target_extension(invert),
{
    reveal_strlit("R3D");
    reveal_strlit("NEV");
    assert(spec_source_extension(invert)[0] != spec_target_extension(invert)[0]);
}

/// The scanning state before any argument: no toggle, no root.
pub open spec fn init_args() -> ParsedArgsModel {
    ParsedArgsModel { invert: false, root: None }
}

/// How one argument advances the scan: a help flag ends it with the usage
/// text, the toggle flips the direction, any other argument that begins with
/// a dash is an unrecognized flag and an error naming itself, the first free
/// argument becomes the root, and a second free argument is an error naming
/// itself.
pub open spec fn parse_step(st: ParsedArgsModel, arg: Seq<char>) -> Result<
    ParsedArgsModel,
    ConfigErrorModel,
> {
    if arg == "--help"@ || arg == "-h"@ {
        Err(ConfigErrorModel::Help(spec_usage()))
    } else if arg == "--invert"@ {
        Ok(ParsedArgsModel { invert: true, ..st })
    } else if arg.len() > 0 && arg[0] == '-' {
        Err(ConfigErrorModel::Message("Unexpected argument: "@ + arg))
    } else if st.root is Some {
        Err(ConfigErrorModel::Message("Unexpected argument: "@ + arg))
    } else {
        Ok(ParsedArgsModel { root: Some(arg), ..st })
    }
}

/// The scan of a whole argument list, stopping at the first help flag or
/// error.
pub open spec fn spec_parse_args(st: ParsedArgsModel, args: Seq<Seq<char>>) -> Result<
    ParsedArgsModel,
    ConfigErrorModel,
>
    decreases args.len(),
{
    if args.len() == 0 {
        Ok(st)
    } else {
        match parse_step(st, args.first()) {
            Ok(st2) => spec_parse_args(st2, args.drop_first()),
            Err(e) => Err(e),
        }
    }
}

impl Config {
    /// The usage text shown for `--help` and on configuration errors.
    pub fn usage() -> (r: &'static str)
        ensures
            r@ == spec_usage(),
    {
        "Usage: r3dy [--invert] [path]\n\nRenames .NEV files to .R3D (or vice versa with --invert) within the given path."
    }

    /// The extension this run renames away from.
    pub fn source_extension(&self) -> (r: &'static str)
        ensures
            r@ == spec_source_extension(self.invert),
    {
        if self.invert {
            "R3D"
        } else {
            "NEV"
        }
    }

    /// The extension this run renames to.
    pub fn target_extension(&self) -> (r: &'static str)
        ensures
            r@ == spec_target_extension(self.invert),
    {
        if self.invert {
            "NEV"
        } else {
            "R3D"
        }
    }

    /// Scans the command-line arguments (the program name already dropped);
    /// the result is exactly [`spec_parse_args`] over their character
    /// sequences.
    pub fn parse_args(args: Vec<String>) -> (r: Result<ParsedArgs, ConfigError>)
        ensures
            match r {
                Ok(p) => spec_parse_args(init_args(), path_views(args@)) == Ok::<
                    ParsedArgsModel,
                    ConfigErrorModel,
                >(p@),
                Err(e) => spec_parse_args(init_args(), path_views(args@)) == Err::<
                    ParsedArgsModel,
                    ConfigErrorModel,
                >(e@),
            },
    {
        let ghost all = path_views(args@);
        let mut rest = args;
        let mut invert = false;
        let mut root: Option<String> = None;
        while rest.len() > 0
            invariant
                all == path_views(args@),
                spec_parse_args(init_args(), all) == spec_parse_args(
                    (ParsedArgsModel { invert, root: opt_path_view(root) }),
                    path_views(rest@),
                ),
            decreases rest@.len(),
        {
            let ghost st = ParsedArgsModel { invert, root: opt_path_view(root) };
            let ghost before = rest@;
            let arg = rest.remove(0);
            proof {
                assert(path_views(before).first() == arg@);
                assert(path_views(rest@) =~= path_views(before).drop_first());
            }
            if str_eq(arg.as_str(), "--help") || str_eq(arg.as_str(), "-h") {
                return Err(ConfigError::Help(String::from_str(Config::usage())));
            }
            if str_eq(arg.as_str(), "--invert") {
                invert = true;
            } else if arg.as_str().unicode_len() > 0 && arg.as_str().get_char(0) == '-' {
                let mut msg = String::from_str("Unexpected argument: ");
                msg.append(arg.as_str());
                proof {
                    assert(msg@ =~= "Unexpected argument: "@ + arg@);
                }
                return Err(ConfigError::Message(msg));
            } else if root.is_some() {
                let mut msg = String::from_str("Unexpected argument: ");
                msg.append(arg.as_str());
                proof {
                    assert(msg@ =~= "Unexpected argument: "@ + arg@);
                }
                return Err(ConfigError::Message(msg));
            } else {
                root = Some(arg);
            }
        }
        proof {
            assert(path_views(rest@).len() == 0);
        }
        Ok(ParsedArgs { invert, root })
    }
}

} // verus!
