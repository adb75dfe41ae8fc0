//! Zed release channels: telling them apart from a desktop entry, and where each
//! keeps its workspace database.
use vstd::prelude::*;

use crate::paths::{join_path, join_path_str};
use crate::text::{
    append_chars, ascii_lowercase, ascii_uppercase, chars_of, has_substring, is_ascii_text,
    lemma_ascii_case_round, lowercase_of, opt_str, str_contains, string_from_chars, to_lowercase,
};

verus! {

/// A release channel of Zed.
#[derive(Clone, Copy, Debug, PartialEq, Eq, Structural)]
pub enum ZedChannel {
    Stable,
    Preview,
    Nightly,
    Dev,
}

/// The channel that a lowercased name or path mentions, checked in the order
/// nightly, preview, dev.
pub open spec fn channel_keyword(lower: Seq<char>) -> Option<ZedChannel> {
    if has_substring(lower, "nightly"@) {
        Some(ZedChannel::Nightly)
    } else if has_substring(lower, "preview"@) {
        Some(ZedChannel::Preview)
    } else if has_substring(lower, "dev"@) {
        Some(ZedChannel::Dev)
    } else {
        None
    }
}

/// The channel of a desktop entry from its lowercased name and executable path: the
/// one the name mentions, else the one the path mentions, else stable.
pub open spec fn channel_of_lowered(name_lower: Seq<char>, exec_lower: Seq<char>) -> ZedChannel {
    match channel_keyword(name_lower) {
        Some(c) => c,
        None => match channel_keyword(exec_lower) {
            Some(c) => c,
            None => ZedChannel::Stable,
        },
    }
}

/// The channel of a desktop entry: the one its name mentions, else the one its
/// executable path mentions, else stable, ignoring case.
pub open spec fn channel_of(name: Seq<char>, exec: Seq<char>) -> ZedChannel {
    channel_of_lowered(lowercase_of(name), lowercase_of(exec))
}

/// The database path for a lowercased executable path: the dev channel's when it
/// mentions `dev`, the stable channel's otherwise.
pub open spec fn db_path_of_lowered_exec(data_dir: Option<Seq<char>>, exec_lower: Seq<char>) -> Seq<
    char,
> {
    db_path_of(
        data_dir,
        if has_substring(exec_lower, "dev"@) {
            ZedChannel::Dev
        } else {
            ZedChannel::Stable
        },
    )
}

/// The directory under `zed/db/` that holds a channel's database.
pub open spec fn db_dir_name(c: ZedChannel) -> Seq<char> {
    match c {
        ZedChannel::Stable => "0-stable"@,
        ZedChannel::Preview => "0-preview"@,
        ZedChannel::Nightly => "0-nightly"@,
        ZedChannel::Dev => "0-dev"@,
    }
}

/// A channel's database, relative to the local data directory.
pub open spec fn db_relative_path(c: ZedChannel) -> Seq<char> {
    "zed/db/"@ + db_dir_name(c) + "/db.sqlite"@
}

/// The local data directory used when none is known.
pub open spec fn fallback_data_dir() -> Seq<char> {
    "~/.local/share"@
}

/// Where a channel keeps its database, given the local data directory.
pub open spec fn db_path_of(data_dir: Option<Seq<char>>, c: ZedChannel) -> Seq<char> {
    let base = match data_dir {
        Some(d) => d,
        None => fallback_data_dir(),
    };
    join_path(base, db_relative_path(c))
}

/// The channel that the lowercased text `lower` mentions.
fn keyword_channel(lower: &str) -> (r: Option<ZedChannel>)
    ensures
        r == channel_keyword(lower@),
{
    if str_contains(lower, "nightly") {
        Some(ZedChannel::Nightly)
    } else if str_contains(lower, "preview") {
        Some(ZedChannel::Preview)
    } else if str_contains(lower, "dev") {
        Some(ZedChannel::Dev)
    } else {
        None
    }
}

/// The release channel of a desktop entry from its lowercased display name and
/// executable path: the name decides first; the path is consulted only when the name
/// mentions no channel.
pub fn channel_from_lowercase(name_lower: &str, exec_lower: &str) -> (c: ZedChannel)
    ensures
        c == channel_of_lowered(name_lower@, exec_lower@),
{
    match keyword_channel(name_lower) {
        Some(c) => c,
        None => match keyword_channel(exec_lower) {
            Some(c) => c,
            None => ZedChannel::Stable,
        },
    }
}

/// The release channel of a desktop entry with display name `name` and executable `exec`.
/// The name decides first; the executable path is consulted only when the name
/// mentions no channel. Case is ignored.
pub fn channel_from_desktop(name: &str, exec: &str) -> (c: ZedChannel)
    ensures
        c == channel_of(name@, exec@),
{
    let name_lower = to_lowercase(name);
    let exec_lower = to_lowercase(exec);
    channel_from_lowercase(name_lower.as_str(), exec_lower.as_str())
}

/// The directory name under `zed/db/` for a channel.
fn db_dir(c: ZedChannel) -> (r: &'static str)
    ensures
        r@ == db_dir_name(c),
{
    match c {
        ZedChannel::Stable => "0-stable",
        ZedChannel::Preview => "0-preview",
        ZedChannel::Nightly => "0-nightly",
        ZedChannel::Dev => "0-dev",
    }
}

/// The path of a channel's workspace database under `data_dir`, or under
/// `~/.local/share` when the data directory is unknown.
pub fn db_path_for_channel(data_dir: Option<&str>, channel: ZedChannel) -> (r: String)
    ensures
        r@ == db_path_of(opt_str(data_dir), channel),
{
    let mut rel = chars_of("zed/db/");
    let dir = chars_of(db_dir(channel));
    append_chars(&mut rel, &dir);
    let tail = chars_of("/db.sqlite");
    append_chars(&mut rel, &tail);
    let rel = string_from_chars(&rel);
    match data_dir {
        Some(d) => join_path_str(d, rel.as_str()),
        None => join_path_str("~/.local/share", rel.as_str()),
    }
}

/// The database path for a lowercased executable path: the dev channel's when it
/// mentions `dev`, the stable channel's otherwise.
pub fn db_path_for_lowercase_exec(data_dir: Option<&str>, exec_lower: &str) -> (r: String)
    ensures
        r@ == db_path_of_lowered_exec(opt_str(data_dir), exec_lower@),
{
    let channel = if str_contains(exec_lower, "dev") {
        ZedChannel::Dev
    } else {
        ZedChannel::Stable
    };
    db_path_for_channel(data_dir, channel)
}

/// The database path for an executable path: the dev channel's when the lowercased
/// path mentions `dev`, the stable channel's otherwise.
pub fn db_path_for_exec(data_dir: Option<&str>, exec: &str) -> (r: String)
    ensures
        r@ == db_path_of_lowered_exec(opt_str(data_dir), lowercase_of(exec@)),
{
    let lower = to_lowercase(exec);
    db_path_for_lowercase_exec(data_dir, lower.as_str())
}

/// The channel ignores the case of ASCII names and executable paths: raising or
/// lowering every ASCII letter of both gives the same channel.
pub proof fn lemma_channel_ignores_ascii_case(name: Seq<char>, exec: Seq<char>)
    requires
        is_ascii_text(name),
        is_ascii_text(exec),
    ensures
        channel_of(ascii_uppercase(name), ascii_uppercase(exec)) == channel_of(name, exec),
        channel_of(ascii_lowercase(name), ascii_lowercase(exec)) == channel_of(name, exec),
{
    lemma_ascii_case_round(name);
    lemma_ascii_case_round(exec);
}

/// The database for an executable path is the dev channel's or the stable channel's; an
/// ASCII path that mentions `dev` in any case gets the dev one, any other ASCII path the
/// stable one; and raising or lowering the path's ASCII letters changes nothing.
pub proof fn lemma_db_path_ignores_ascii_case(data_dir: Option<Seq<char>>, exec: Seq<char>)
    ensures
        db_path_of_lowered_exec(data_dir, lowercase_of(exec)) == db_path_of(data_dir, ZedChannel::Dev)
            || db_path_of_lowered_exec(data_dir, lowercase_of(exec)) == db_path_of(
            data_dir,
            ZedChannel::Stable,
        ),
        is_ascii_text(exec) && has_substring(ascii_lowercase(exec), "dev"@) ==> db_path_of_lowered_exec(
            data_dir,
            lowercase_of(exec),
        ) == db_path_of(data_dir, ZedChannel::Dev),
        is_ascii_text(exec) && !has_substring(ascii_lowercase(exec), "dev"@) ==> db_path_of_lowered_exec(
            data_dir,
            lowercase_of(exec),
        ) == db_path_of(data_dir, ZedChannel::Stable),
        is_ascii_text(exec) ==> db_path_of_lowered_exec(data_dir, lowercase_of(ascii_uppercase(exec)))
            == db_path_of_lowered_exec(data_dir, lowercase_of(exec)),
        is_ascii_text(exec) ==> db_path_of_lowered_exec(data_dir, lowercase_of(ascii_lowercase(exec)))
            == db_path_of_lowered_exec(data_dir, lowercase_of(exec)),
{
    lemma_ascii_case_round(exec);
}

/// The name decides the channel when it mentions one, whatever the executable path
/// says: `nightly` first, then `preview`, then `dev`, ignoring case. A name that
/// mentions none leaves it to the executable path in the same order, and a path that
/// mentions none either gives stable.
pub proof fn lemma_name_decides_channel(name: Seq<char>, exec: Seq<char>)
    ensures
        has_substring(lowercase_of(name), "nightly"@) ==> channel_of(name, exec) == ZedChannel::Nightly,
        !has_substring(lowercase_of(name), "nightly"@) && has_substring(lowercase_of(name), "preview"@)
            ==> channel_of(name, exec) == ZedChannel::Preview,
        !has_substring(lowercase_of(name), "nightly"@) && !has_substring(lowercase_of(name), "preview"@)
            && has_substring(lowercase_of(name), "dev"@) ==> channel_of(name, exec) == ZedChannel::Dev,
        !has_substring(lowercase_of(name), "nightly"@) && !has_substring(lowercase_of(name), "preview"@)
            && !has_substring(lowercase_of(name), "dev"@) ==> {
            &&& has_substring(lowercase_of(exec), "nightly"@) ==> channel_of(name, exec) == ZedChannel::Nightly
            &&& !has_substring(lowercase_of(exec), "nightly"@) && has_substring(lowercase_of(exec), "preview"@)
                ==> channel_of(name, exec) == ZedChannel::Preview
            &&& !has_substring(lowercase_of(exec), "nightly"@) && !has_substring(lowercase_of(exec), "preview"@)
                && has_substring(lowercase_of(exec), "dev"@) ==> channel_of(name, exec) == ZedChannel::Dev
            &&& !has_substring(lowercase_of(exec), "nightly"@) && !has_substring(lowercase_of(exec), "preview"@)
                && !has_substring(lowercase_of(exec), "dev"@) ==> channel_of(name, exec) == ZedChannel::Stable
        },
{
}

/// Each channel keeps its database at `zed/db/<dir>/db.sqlite` under the local data
/// directory (`~/.local/share` when it is unknown), `<dir>` being `0-stable`,
/// `0-preview`, `0-nightly` or `0-dev`.
pub proof fn lemma_channel_databases(data_dir: Option<Seq<char>>)
    ensures
        ({
            let base = match data_dir {
                Some(d) => d,
                None => "~/.local/share"@,
            };
            &&& db_path_of(data_dir, ZedChannel::Stable) == join_path(base, "zed/db/0-stable/db.sqlite"@)
            &&& db_path_of(data_dir, ZedChannel::Preview) == join_path(base, "zed/db/0-preview/db.sqlite"@)
            &&& db_path_of(data_dir, ZedChannel::Nightly) == join_path(base, "zed/db/0-nightly/db.sqlite"@)
            &&& db_path_of(data_dir, ZedChannel::Dev) == join_path(base, "zed/db/0-dev/db.sqlite"@)
        }),
{
    reveal_strlit("zed/db/");
    reveal_strlit("/db.sqlite");
    reveal_strlit("0-stable");
    reveal_strlit("0-preview");
    reveal_strlit("0-nightly");
    reveal_strlit("0-dev");
    reveal_strlit("zed/db/0-stable/db.sqlite");
    reveal_strlit("zed/db/0-preview/db.sqlite");
    reveal_strlit("zed/db/0-nightly/db.sqlite");
    reveal_strlit("zed/db/0-dev/db.sqlite");
    assert("zed/db/"@ + "0-stable"@ + "/db.sqlite"@ =~= "zed/db/0-stable/db.sqlite"@);
    assert("zed/db/"@ + "0-preview"@ + "/db.sqlite"@ =~= "zed/db/0-preview/db.sqlite"@);
    assert("zed/db/"@ + "0-nightly"@ + "/db.sqlite"@ =~= "zed/db/0-nightly/db.sqlite"@);
    assert("zed/db/"@ + "0-dev"@ + "/db.sqlite"@ =~= "zed/db/0-dev/db.sqlite"@);
}

} // verus!
