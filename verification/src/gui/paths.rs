//! Where files are kept.

use crate::text::chars_of;
use vstd::prelude::*;

verus! {

/// A path below another.
pub open spec fn below(base: Seq<char>, name: Seq<char>) -> Seq<char> {
    if base.len() == 0 || base.last() == '/' {
        base + name
    } else {
        base.push('/') + name
    }
}

/// The path `name`, which is relative, below `base`.
pub fn join_path(base: &str, name: &str) -> (r: String)
    ensures
        r@ == below(base@, name@),
{
    let chars = chars_of(base);
    let count: usize = chars.len();
    let mut path: String = base.to_owned();
    if count > 0 && chars[count - 1] != '/' {
        path.push('/');
    }
    path.append(name);
    path
}

/// A directory of the user: the one that the environment names, else the usual one below the
/// home directory, else the one for temporary files.
pub open spec fn user_dir(
    named: Option<Seq<char>>,
    home: Option<Seq<char>>,
    usual: Seq<char>,
    temporary: Seq<char>,
) -> Seq<char> {
    match named {
        Some(path) => path,
        None => match home {
            Some(home) => below(home, usual),
            None => temporary,
        },
    }
}

/// The contents of a text, if there is one.
pub open spec fn view_of(text: Option<&str>) -> Option<Seq<char>> {
    match text {
        Some(text) => Some(text@),
        None => None,
    }
}

fn choose_dir(named: Option<&str>, home: Option<&str>, usual: &str, temporary: &str) -> (r: String)
    ensures
        r@ == user_dir(view_of(named), view_of(home), usual@, temporary@),
{
    match named {
        Some(path) => path.to_owned(),
        None => match home {
            Some(home) => join_path(home, usual),
            None => temporary.to_owned(),
        },
    }
}

/// The file with the settings.
pub fn settings_path(config_home: Option<&str>, home: Option<&str>, temporary: &str) -> (r: String)
    ensures
        r@ == below(
            below(
                user_dir(view_of(config_home), view_of(home), ".config"@, temporary@),
                "meikipop"@,
            ),
            "settings.conf"@,
        ),
{
    let base = choose_dir(config_home, home, ".config", temporary);
    join_path(join_path(base.as_str(), "meikipop").as_str(), "settings.conf")
}

/// The file with the dictionary.
pub fn dictionary_path(data_home: Option<&str>, home: Option<&str>, temporary: &str) -> (r: String)
    ensures
        r@ == below(
            below(
                user_dir(view_of(data_home), view_of(home), ".local/share"@, temporary@),
                "meikipop"@,
            ),
            "dictionary.pkl"@,
        ),
{
    let base = choose_dir(data_home, home, ".local/share", temporary);
    join_path(join_path(base.as_str(), "meikipop").as_str(), "dictionary.pkl")
}

/// The file that remembers the selected screen.
pub fn screencast_token_path(cache_home: Option<&str>, home: Option<&str>, temporary: &str) -> (r:
    String)
    ensures
        r@ == below(
            below(
                user_dir(view_of(cache_home), view_of(home), ".cache"@, temporary@),
                "meikipop"@,
            ),
            ".ocr_screencapture_token"@,
        ),
{
    let base = choose_dir(cache_home, home, ".cache", temporary);
    join_path(join_path(base.as_str(), "meikipop").as_str(), ".ocr_screencapture_token")
}

/// A path below another has one slash between them: the one that the other ends with, or one
/// that is put there. Nothing is put before a path below the empty one.
pub proof fn law_paths_are_joined_by_one_slash(base: Seq<char>, name: Seq<char>)
    ensures
        below(base.push('/'), name) == base + seq!['/'] + name,
        base.len() > 0 && base[base.len() - 1] != '/' ==> below(base, name) == base + seq!['/']
            + name,
        base.len() == 0 ==> below(base, name) == name,
{
    assert(base.push('/') =~= base + seq!['/']);
    assert(base.len() == 0 ==> base + name =~= name);
}

/// The directory that the environment names comes first, then the usual one below the home
/// directory, and the one for temporary files is only the last resort.
pub proof fn law_named_directories_come_first(
    named: Seq<char>,
    home: Option<Seq<char>>,
    usual: Seq<char>,
    temporary: Seq<char>,
)
    ensures
        user_dir(Some(named), home, usual, temporary) == named,
        home is Some ==> user_dir(None, home, usual, temporary) == below(home->0, usual),
        user_dir(None, None, usual, temporary) == temporary,
{
}

} // verus!
