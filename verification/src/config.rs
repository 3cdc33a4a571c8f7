//! Where the three paths come from at startup: a command-line option, else
//! an entry of the configuration file, else a conventional file name in the
//! working directory.

use vstd::prelude::*;

verus! {

/// One of the three paths the engine works on.
#[derive(Clone, Copy, Debug, PartialEq, Eq, Structural)]
pub enum Preset {
    Gamelog,
    Soundpack,
    IgnoreList,
}

/// What the first capture group of the regular expression `pattern` holds at
/// the leftmost match in `text`, as `regex::Regex::captures` and
/// `regex::Captures::get` report it; `None` where the expression does not
/// compile, finds no match, or matches without its first group.
pub uninterp spec fn regex_first_group(pattern: Seq<char>, text: Seq<char>) -> Option<Seq<char>>;

/// Compiles `pattern` with `regex::Regex::new`, searches `text` with
/// `regex::Regex::captures` and copies what `regex::Captures::get(1)` holds.
///
/// Trusted: the result depends on the two arguments alone. Nothing else is
/// claimed of it.
#[verifier::external_body]
fn first_group(pattern: &str, text: &str) -> (captured: Option<String>)
    ensures
        match captured {
            Some(value) => regex_first_group(pattern@, text@) == Some(value@),
            None => regex_first_group(pattern@, text@) is None,
        },
{
    let re = match regex::Regex::new(pattern) {
        Ok(re) => re,
        Err(_) => return None,
    };
    match re.captures(text) {
        Some(captures) => match captures.get(1) {
            Some(found) => Some(found.as_str().to_owned()),
            None => None,
        },
        None => None,
    }
}

impl Preset {
    /// The regular expression that finds this path's entry in the
    /// configuration file: the key, an equals sign, and the rest of the line.
    pub open spec fn spec_entry_pattern(self) -> Seq<char> {
        match self {
            Preset::Gamelog => "gamelog=(.+)"@,
            Preset::Soundpack => "soundpack=(.+)"@,
            Preset::IgnoreList => "ignore=(.+)"@,
        }
    }

    /// The regular expression that finds this path's entry in the
    /// configuration file.
    pub fn entry_pattern(self) -> (pattern: &'static str)
        ensures
            pattern@ == self.spec_entry_pattern(),
    {
        match self {
            Preset::Gamelog => "gamelog=(.+)",
            Preset::Soundpack => "soundpack=(.+)",
            Preset::IgnoreList => "ignore=(.+)",
        }
    }

    /// The conventional name of this path in the working directory.
    pub fn fallback(self) -> (path: &'static str)
        ensures
            path@ == match self {
                Preset::Gamelog => "./gamelog.txt"@,
                Preset::Soundpack => "./soundpack"@,
                Preset::IgnoreList => "./ignore.txt"@,
            },
    {
        match self {
            Preset::Gamelog => "./gamelog.txt",
            Preset::Soundpack => "./soundpack",
            Preset::IgnoreList => "./ignore.txt",
        }
    }

    /// Whether this path names a directory rather than a file.
    pub fn is_directory(self) -> (directory: bool)
        ensures
            directory == (self == Preset::Soundpack),
    {
        match self {
            Preset::Soundpack => true,
            _ => false,
        }
    }
}

/// The entry for `preset` in the text of the configuration file, if it has
/// one.
pub fn conf_entry(conf: &str, preset: Preset) -> (entry: Option<String>)
    ensures
        match entry {
            Some(value) => regex_first_group(preset.spec_entry_pattern(), conf@) == Some(value@),
            None => regex_first_group(preset.spec_entry_pattern(), conf@) is None,
        },
{
    first_group(preset.entry_pattern(), conf)
}

/// The path that wins: the option if it was given and names something that
/// exists, else the configuration entry if there is one, else the fallback
/// if that exists, else none.
pub open spec fn chosen(
    option: Option<String>,
    option_exists: bool,
    entry: Option<String>,
    fallback: String,
    fallback_exists: bool,
) -> Option<String> {
    if option is Some && option_exists {
        option
    } else if entry is Some {
        entry
    } else if fallback_exists {
        Some(fallback)
    } else {
        None
    }
}

/// Chooses a path at startup from what the command line gave, what the
/// configuration file holds, and the conventional name. The two flags say
/// whether the option and the fallback name something that exists; the
/// configuration entry is taken on trust.
pub fn choose_path(
    option: Option<String>,
    option_exists: bool,
    entry: Option<String>,
    fallback: String,
    fallback_exists: bool,
) -> (path: Option<String>)
    ensures
        path == chosen(option, option_exists, entry, fallback, fallback_exists),
{
    if option.is_some() && option_exists {
        option
    } else if entry.is_some() {
        entry
    } else if fallback_exists {
        Some(fallback)
    } else {
        None
    }
}

} // verus!
