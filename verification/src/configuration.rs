//! What the tool remembers between runs.

use crate::log::text::spec_texts;
use vstd::prelude::*;

verus! {

/// How a worklog tag is made from a branch name.
#[derive(Clone, Debug)]
pub struct TagConfiguration {
    /// The branch name is split at each occurrence of this text.
    pub separator: String,
    /// Which piece of the split name becomes the body of the tag, counted
    /// from zero.
    pub element_index: usize,
    /// What every tag begins with.
    pub prefix: String,
}

/// The configuration of the tool.
#[derive(Clone)]
pub struct Configuration {
    /// The directories beneath which repositories are looked for.
    pub repo_dirs: Vec<String>,
    /// The ticket that is offered first.
    pub default_project: String,
    pub tag_configuration: TagConfiguration,
}

/// A [`TagConfiguration`] as a mathematical value.
pub struct TagRule {
    pub separator: Seq<char>,
    pub element_index: nat,
    pub prefix: Seq<char>,
}

/// A [`Configuration`] as a mathematical value.
pub struct ConfigurationState {
    pub repo_dirs: Seq<Seq<char>>,
    pub default_project: Seq<char>,
    pub tag_rule: TagRule,
}

impl View for TagConfiguration {
    type V = TagRule;

    open spec fn view(&self) -> TagRule {
        TagRule {
            separator: self.separator@,
            element_index: self.element_index as nat,
            prefix: self.prefix@,
        }
    }
}

impl View for Configuration {
    type V = ConfigurationState;

    open spec fn view(&self) -> ConfigurationState {
        ConfigurationState {
            repo_dirs: spec_texts(self.repo_dirs@),
            default_project: self.default_project@,
            tag_rule: self.tag_configuration@,
        }
    }
}

/// The configuration of a first run: no directories, the project `PROJ`,
/// and tags made of `#CW` and the second piece of a branch name split at
/// `/`.
pub open spec fn spec_default_configuration() -> ConfigurationState {
    ConfigurationState {
        repo_dirs: Seq::empty(),
        default_project: "PROJ"@,
        tag_rule: TagRule { separator: "/"@, element_index: 1, prefix: "#CW"@ },
    }
}

impl Default for Configuration {
    fn default() -> (config: Configuration)
        ensures
            config@ == spec_default_configuration(),
    {
        let config = Configuration {
            repo_dirs: Vec::new(),
            default_project: "PROJ".to_owned(),
            tag_configuration: TagConfiguration {
                separator: "/".to_owned(),
                element_index: 1,
                prefix: "#CW".to_owned(),
            },
        };
        proof {
            assert(spec_texts(config.repo_dirs@) =~= Seq::<Seq<char>>::empty());
        }
        config
    }
}

} // verus!
