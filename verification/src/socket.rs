//! The refresh channel: the Unix socket on which yabai's signal handlers ask for
//! a refresh, and the commands it accepts.

use vstd::prelude::*;
use crate::text::{is_white_space, lemma_trim_surrounded, trim, trim_spec};

verus! {

/// The socket on which refresh commands are accepted.
pub const SOCKET_PATH: &'static str = "/tmp/yabai-id.socket";

/// The socket path that older setups send their refresh commands to.
pub const LEGACY_SOCKET_PATH: &'static str = "/tmp/yabai-indicator.socket";

/// The commands that ask for a refresh, once surrounding whitespace is removed:
/// `refresh`, `refresh spaces` and `refresh windows` (the last is treated as a
/// full refresh).
pub open spec fn is_refresh_command_spec(msg: Seq<char>) -> bool {
    let t = trim_spec(msg);
    t == "refresh"@ || t == "refresh spaces"@ || t == "refresh windows"@
}

/// Whether a message read from the refresh socket asks for a refresh.
pub fn is_refresh_command(msg: &str) -> (r: bool)
    ensures
        r == is_refresh_command_spec(msg@),
{
    let t = trim(msg);
    t == String::from_str("refresh") || t == String::from_str("refresh spaces") || t
        == String::from_str("refresh windows")
}

/// A refresh command is accepted with any whitespace around it, such as the
/// newline that `echo` adds.
pub proof fn lemma_refresh_with_whitespace(pre: Seq<char>, command: Seq<char>, post: Seq<char>)
    requires
        command == "refresh"@ || command == "refresh spaces"@ || command == "refresh windows"@,
        forall|i: int| 0 <= i < pre.len() ==> is_white_space(#[trigger] pre[i]),
        forall|i: int| 0 <= i < post.len() ==> is_white_space(#[trigger] post[i]),
    ensures
        is_refresh_command_spec(pre + command + post),
{
    reveal_strlit("refresh");
    reveal_strlit("refresh spaces");
    reveal_strlit("refresh windows");
    lemma_trim_surrounded(pre, command, post);
}

} // verus!
