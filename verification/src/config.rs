//! The program's settings and their defaults.

use vstd::prelude::*;
use crate::commands::LinkFormat;
use crate::text::{chars_of, string_of};

verus! {

/// How the user is asked for texts.
#[derive(Clone, Copy, Debug, PartialEq, Eq, Structural)]
pub enum PrompterType {
    /// Prompts with editing keys of the usual kind (the default).
    Inquire,
    /// Prompts with vi editing keys.
    Vim,
}

impl Default for PrompterType {
    fn default() -> (r: Self)
        ensures
            r == PrompterType::Inquire,
    {
        PrompterType::Inquire
    }
}

/// The settings read from the configuration file.
#[derive(Debug)]
pub struct FiniConfig {
    /// How links are shown in the list.
    pub list_link_format: LinkFormat,
    /// How links are written when tasks are copied.
    pub copy_link_format: LinkFormat,
    /// How the user is asked for texts.
    pub prompter: PrompterType,
    /// Where the boards are kept, if not in the platform's data directory; `~`
    /// stands for the home directory.
    pub data_dir: Option<String>,
}

/// The link format of the list when none is set: the link on a line of its own.
pub fn default_list_link_format() -> (r: LinkFormat)
    ensures
        r == LinkFormat::Newline,
{
    LinkFormat::Newline
}

/// The link format of copies when none is set: the link after the title.
pub fn default_copy_link_format() -> (r: LinkFormat)
    ensures
        r == LinkFormat::Adjacent,
{
    LinkFormat::Adjacent
}

/// Where a configured path stands with respect to the home directory.
#[derive(Debug)]
pub enum HomePath {
    /// `~`: the home directory itself.
    Home,
    /// `~/` and the rest: the rest, under the home directory.
    UnderHome(String),
    /// Any other path, taken as it is written.
    AsWritten,
}

/// How a configured data directory is read: `~` alone is the home directory,
/// `~/` followed by a rest is that rest under it, and any other path is taken as it
/// is written.
pub fn home_relative(path: &str) -> (r: HomePath)
    ensures
        path@ == seq!['~'] ==> r is Home,
        path@.len() >= 2 && path@[0] == '~' && path@[1] == '/' ==> (r matches HomePath::UnderHome(rest) && rest@ == path@.skip(2)),
        path@ != seq!['~'] && !(path@.len() >= 2 && path@[0] == '~' && path@[1] == '/') ==> r is AsWritten,
{
    let cs = chars_of(path);
    if cs.len() >= 2 && cs[0] == '~' && cs[1] == '/' {
        let rest = string_of(&cs, 2, cs.len());
        assert(cs@.subrange(2, cs@.len() as int) =~= path@.skip(2));
        HomePath::UnderHome(rest)
    } else if cs.len() == 1 && cs[0] == '~' {
        assert(path@ =~= seq!['~']);
        HomePath::Home
    } else {
        proof {
            if path@ == seq!['~'] {
                assert(cs@.len() == 1 && cs@[0] == '~');
            }
        }
        HomePath::AsWritten
    }
}

} // verus!
