//! Mission Control configuration; every field has a default.

use vstd::prelude::*;
use vstd::string::*;
use crate::schema::pane_view::clone_opt_str;

verus! {

/// Mission Control configuration, read from `~/.config/mc/config.toml`.
pub struct Config {
    /// Tools since the last user message at or above this: runaway.
    pub runaway_threshold: u32,
    /// Seconds since the last activity above this: idle for long.
    pub idle_threshold_secs: u64,
    /// Number of user turns in the conversation arc.
    pub arc_turns: usize,
    /// Override for the herdr socket path.
    pub herdr_socket: Option<String>,
}

/// Default runaway threshold: 25 tool calls.
pub fn default_runaway_threshold() -> (r: u32)
    ensures r == 25,
{
    25
}

/// Default idle threshold: 900 seconds (15 minutes).
pub fn default_idle_threshold_secs() -> (r: u64)
    ensures r == 900,
{
    900
}

/// Default number of arc turns: 5.
pub fn default_arc_turns() -> (r: usize)
    ensures r == 5,
{
    5
}

impl Default for Config {
    fn default() -> (r: Self)
        ensures
            r.runaway_threshold == 25,
            r.idle_threshold_secs == 900,
            r.arc_turns == 5,
            r.herdr_socket is None,
    {
        Config {
            runaway_threshold: default_runaway_threshold(),
            idle_threshold_secs: default_idle_threshold_secs(),
            arc_turns: default_arc_turns(),
            herdr_socket: None,
        }
    }
}

impl Clone for Config {
    fn clone(&self) -> (r: Self)
        ensures r == *self,
    {
        Config {
            runaway_threshold: self.runaway_threshold,
            idle_threshold_secs: self.idle_threshold_secs,
            arc_turns: self.arc_turns,
            herdr_socket: clone_opt_str(&self.herdr_socket),
        }
    }
}

/// `base` extended by the relative path segment `seg`, as `Path::join`
/// does: a `/` goes between them unless `base` is empty or already ends in
/// one.
pub open spec fn path_join(base: Seq<char>, seg: Seq<char>) -> Seq<char> {
    if base.len() == 0 || base.last() == '/' {
        base + seg
    } else {
        base + seq!['/'] + seg
    }
}

/// Joins a relative path segment onto a path.
pub fn join_path(base: &str, seg: &str) -> (r: String)
    ensures r@ == path_join(base@, seg@),
{
    let mut out = base.to_owned();
    let n = base.unicode_len();
    if n > 0 && base.get_char(n - 1) != '/' {
        crate::text::push_char(&mut out, '/');
    }
    out.append(seg);
    out
}

impl Config {
    /// The config file under the user's config directory (`.` when there is
    /// none): `<dir>/mc/config.toml`.
    pub fn default_path(config_dir: Option<&str>) -> (r: String)
        ensures
            r@ == path_join(path_join(match config_dir { Some(d) => d@, None => "."@ }, "mc"@), "config.toml"@),
    {
        let base = match config_dir {
            Some(d) => d.to_owned(),
            None => String::from_str("."),
        };
        let mc = join_path(base.as_str(), "mc");
        join_path(mc.as_str(), "config.toml")
    }
}

} // verus!
