//! The commands of the tool and what each does to the configuration.

use crate::configuration::{Configuration, ConfigurationState, TagRule};
use crate::log::text::{contains_text, spec_texts};
use vstd::prelude::*;

verus! {

/// The arguments of one run.
#[derive(Debug)]
pub struct Args {
    pub subcommand: ArgsSubcommand,
}

/// What one run is asked to do.
#[derive(Debug)]
pub enum ArgsSubcommand {
    /// Add directory to git branch sources
    AddDir { dir_name: String },
    /// Remove directory from git branch sources
    RmDir { dir_name: String },
    /// Add ticket to log time for
    AddTicket { ticket_name: String },
    /// Remove ticket from stored tickets
    RmTicket { ticket_name: String },
    /// Set branch format. Branch name will be split on separator and
    /// index-th element will be used for worklog tag
    SetBranchFormat { separator: String, index: usize },
    /// Set the prefix that will be used for every worklog tag
    SetTagPrefix { prefix: String },
    /// Show current configuration
    PrintConfig,
    /// Create new work log
    Log,
}

/// What is left to do once a command has had its effect on the
/// configuration.
#[derive(Debug, Clone, Copy, PartialEq, Eq, Structural)]
pub enum NextStep {
    /// Store the configuration.
    Save,
    /// Show the configuration, then store it.
    PrintConfig,
    /// Create a work log, then store the configuration.
    Log,
}

/// Why a command was refused.
#[derive(Debug, Clone, Copy, PartialEq, Eq, Structural)]
pub enum CommandError {
    /// A work log was asked for while no directory is configured.
    NoRepoDirs,
}

impl CommandError {
    /// The refusal in words.
    pub fn message(&self) -> (text: &'static str)
        ensures
            text@ == "Must set at least one repo dir before logging!"@,
    {
        "Must set at least one repo dir before logging!"
    }
}

/// The directories without every occurrence of `name`, the others in their
/// order.
pub open spec fn spec_without(dirs: Seq<Seq<char>>, name: Seq<char>) -> Seq<Seq<char>>
    decreases dirs.len(),
{
    if dirs.len() == 0 {
        Seq::empty()
    } else if dirs.last() == name {
        spec_without(dirs.drop_last(), name)
    } else {
        spec_without(dirs.drop_last(), name).push(dirs.last())
    }
}

/// The configuration after a command.
pub open spec fn spec_after(config: ConfigurationState, subcommand: ArgsSubcommand) -> ConfigurationState {
    match subcommand {
        ArgsSubcommand::AddDir { dir_name } => if config.repo_dirs.contains(dir_name@) {
            config
        } else {
            ConfigurationState { repo_dirs: config.repo_dirs.push(dir_name@), ..config }
        },
        ArgsSubcommand::RmDir { dir_name } => ConfigurationState {
            repo_dirs: spec_without(config.repo_dirs, dir_name@),
            ..config
        },
        ArgsSubcommand::SetBranchFormat { separator, index } => ConfigurationState {
            tag_rule: TagRule {
                separator: separator@,
                element_index: index as nat,
                ..config.tag_rule
            },
            ..config
        },
        ArgsSubcommand::SetTagPrefix { prefix } => ConfigurationState {
            tag_rule: TagRule { prefix: prefix@, ..config.tag_rule },
            ..config
        },
        _ => config,
    }
}

/// What is left to do after a command, or why the command is refused.
pub open spec fn spec_next_step(config: ConfigurationState, subcommand: ArgsSubcommand) -> Result<
    NextStep,
    CommandError,
> {
    match subcommand {
        ArgsSubcommand::PrintConfig => Ok(NextStep::PrintConfig),
        ArgsSubcommand::Log => if config.repo_dirs.len() == 0 {
            Err(CommandError::NoRepoDirs)
        } else {
            Ok(NextStep::Log)
        },
        _ => Ok(NextStep::Save),
    }
}

/// The directories without every occurrence of `name`.
pub fn without_dir(dirs: &Vec<String>, name: &String) -> (kept: Vec<String>)
    ensures
        spec_texts(kept@) == spec_without(spec_texts(dirs@), name@),
{
    let mut kept: Vec<String> = Vec::new();
    let mut i: usize = 0;
    proof {
        assert(spec_texts(dirs@).subrange(0, 0) =~= Seq::<Seq<char>>::empty());
        assert(spec_texts(kept@) =~= Seq::<Seq<char>>::empty());
    }
    while i < dirs.len()
        invariant
            i <= dirs.len(),
            spec_texts(kept@) == spec_without(spec_texts(dirs@).subrange(0, i as int), name@),
        decreases dirs.len() - i,
    {
        let ghost seen = kept@;
        proof {
            assert(spec_texts(dirs@).subrange(0, i + 1).drop_last() =~= spec_texts(
                dirs@,
            ).subrange(0, i as int));
            assert(spec_texts(dirs@).subrange(0, i + 1).last() == dirs[i as int]@);
        }
        if dirs[i] != *name {
            kept.push(dirs[i].clone());
            proof {
                assert(spec_texts(kept@) =~= spec_texts(seen).push(dirs[i as int]@));
            }
        }
        i += 1;
    }
    proof {
        assert(spec_texts(dirs@).subrange(0, dirs.len() as int) =~= spec_texts(dirs@));
    }
    kept
}

/// Gives a command its effect on the configuration and says what is left
/// to do.
///
/// A directory is added once only; removing one removes every occurrence;
/// the branch format and the tag prefix are replaced. A work log is refused
/// while no directory is configured. Every other command leaves the
/// configuration as it is.
pub fn apply_subcommand(config: &mut Configuration, subcommand: ArgsSubcommand) -> (r: Result<
    NextStep,
    CommandError,
>)
    ensures
        final(config)@ == spec_after(old(config)@, subcommand),
        r == spec_next_step(old(config)@, subcommand),
{
    match subcommand {
        ArgsSubcommand::AddDir { dir_name } => {
            if !contains_text(&config.repo_dirs, &dir_name) {
                let ghost before = config.repo_dirs@;
                let ghost added = dir_name@;
                config.repo_dirs.push(dir_name);
                proof {
                    assert(spec_texts(config.repo_dirs@) =~= spec_texts(before).push(added));
                }
            }
            Ok(NextStep::Save)
        },
        ArgsSubcommand::RmDir { dir_name } => {
            let kept = without_dir(&config.repo_dirs, &dir_name);
            config.repo_dirs = kept;
            Ok(NextStep::Save)
        },
        ArgsSubcommand::SetBranchFormat { separator, index } => {
            config.tag_configuration.separator = separator;
            config.tag_configuration.element_index = index;
            Ok(NextStep::Save)
        },
        ArgsSubcommand::SetTagPrefix { prefix } => {
            config.tag_configuration.prefix = prefix;
            Ok(NextStep::Save)
        },
        ArgsSubcommand::AddTicket { .. } => Ok(NextStep::Save),
        ArgsSubcommand::RmTicket { .. } => Ok(NextStep::Save),
        ArgsSubcommand::PrintConfig => Ok(NextStep::PrintConfig),
        ArgsSubcommand::Log => {
            if config.repo_dirs.len() == 0 {
                Err(CommandError::NoRepoDirs)
            } else {
                Ok(NextStep::Log)
            }
        },
    }
}

} // verus!
