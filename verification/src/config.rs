//! Where a device keeps its state, and what it makes up when it starts for the first time.
use vstd::prelude::*;
use vstd::string::*;

use crate::device::{generate_token, is_drawn, is_version_four, simple_form, DeviceId};
use crate::text::chars_of;

verus! {

/// A relative path in a directory.
pub open spec fn path_in(dir: Seq<char>, rest: Seq<char>) -> Seq<char> {
    if dir.len() == 0 {
        rest
    } else if dir.last() == '/' {
        dir + rest
    } else {
        dir + "/"@ + rest
    }
}

/// A relative path in a directory.
pub fn join_path(dir: &str, rest: &str) -> (r: String)
    ensures
        r@ == path_in(dir@, rest@),
{
    let v = chars_of(dir);
    let mut r: String = dir.to_owned();
    if v.len() > 0 && v[v.len() - 1] != '/' {
        r.append("/");
    }
    r.append(rest);
    assert(r@ =~= path_in(dir@, rest@));
    r
}

/// The directory that a device keeps its state in: the one that was given, else one in the home
/// directory; none where there is neither.
pub open spec fn state_dir(given: Option<Seq<char>>, home: Option<Seq<char>>) -> Option<Seq<char>> {
    match given {
        Some(dir) => Some(dir),
        None => match home {
            Some(h) => Some(path_in(h, ".config/nexus"@)),
            None => None,
        },
    }
}

/// The characters of a text that may be missing.
pub open spec fn text_view(t: Option<&str>) -> Option<Seq<char>> {
    match t {
        Some(s) => Some(s@),
        None => None,
    }
}

/// Whether `r` is the path `file` in the directory that a device keeps its state in, or says that
/// there is none.
pub open spec fn state_file(
    given: Option<&str>,
    home: Option<&str>,
    file: Seq<char>,
    r: Result<String, String>,
) -> bool {
    match (state_dir(text_view(given), text_view(home)), r) {
        (Some(d), Ok(p)) => p@ == path_in(d, file),
        (None, Err(e)) => e@ == "HOME not set and NEXUS_CONFIG_DIR not provided"@,
        _ => false,
    }
}

/// The directory that a device keeps its state in. `given` is what the environment names for it,
/// `home` the home directory.
pub fn config_dir(given: Option<&str>, home: Option<&str>) -> (r: Result<String, String>)
    ensures
        match (state_dir(text_view(given), text_view(home)), r) {
            (Some(d), Ok(p)) => p@ == d,
            (None, Err(e)) => e@ == "HOME not set and NEXUS_CONFIG_DIR not provided"@,
            _ => false,
        },
{
    match given {
        Some(dir) => Ok(dir.to_owned()),
        None => match home {
            Some(h) => Ok(join_path(h, ".config/nexus")),
            None => Err("HOME not set and NEXUS_CONFIG_DIR not provided".to_owned()),
        },
    }
}

/// Where a host keeps who it is.
pub fn config_path(given: Option<&str>, home: Option<&str>) -> (r: Result<String, String>)
    ensures
        state_file(given, home, "agent.json"@, r),
{
    match config_dir(given, home) {
        Ok(dir) => Ok(join_path(dir.as_str(), "agent.json")),
        Err(e) => Err(e),
    }
}

/// Where a client keeps what it has seen of each path.
pub fn clock_store_path(given: Option<&str>, home: Option<&str>) -> (r: Result<String, String>)
    ensures
        state_file(given, home, "client-clocks.json"@, r),
{
    match config_dir(given, home) {
        Ok(dir) => Ok(join_path(dir.as_str(), "client-clocks.json")),
        Err(e) => Err(e),
    }
}

/// Who a host is, and the secret that clients without a certificate show.
#[derive(Debug)]
pub struct AgentConfig {
    pub device_id: DeviceId,
    pub auth_token: String,
}

/// Whether an identity was made up: it was drawn at random.
pub open spec fn is_made_up_id(id: DeviceId) -> bool {
    is_drawn(id.0) && is_version_four(id.0)
}

/// Whether a text is a secret that was made up: the digits of an identity that was drawn at random.
pub open spec fn is_made_up_token(t: Seq<char>) -> bool {
    exists|u: u128| is_drawn(u) && is_version_four(u) && t == #[trigger] simple_form(u)
}

impl AgentConfig {
    /// What a host goes by, and whether it is to be written out: what was found, with `token` where
    /// no secret was kept, or `device_id` and `token` where nothing was found.
    pub fn completed(found: Option<AgentConfig>, device_id: DeviceId, token: String) -> (r: (
        AgentConfig,
        bool,
    ))
        ensures
            match found {
                Some(c) => {
                    &&& r.0.device_id == c.device_id
                    &&& r.0.auth_token@ == (if c.auth_token@.len() > 0 {
                        c.auth_token@
                    } else {
                        token@
                    })
                    &&& r.1 == (c.auth_token@.len() == 0)
                },
                None => r.0.device_id == device_id && r.0.auth_token@ == token@ && r.1,
            },
    {
        match found {
            Some(c) => {
                if c.auth_token.as_str().is_empty() {
                    (AgentConfig { device_id: c.device_id, auth_token: token }, true)
                } else {
                    (c, false)
                }
            },
            None => (AgentConfig { device_id, auth_token: token }, true),
        }
    }

    /// What a host goes by, and whether it is to be written out: what was found, with a secret made
    /// up where none was kept, or all of it made up where nothing was found.
    pub fn load_or_create(found: Option<AgentConfig>) -> (r: (AgentConfig, bool))
        ensures
            match found {
                Some(c) => {
                    &&& r.0.device_id == c.device_id
                    &&& c.auth_token@.len() > 0 ==> r.0.auth_token@ == c.auth_token@ && !r.1
                    &&& c.auth_token@.len() == 0 ==> is_made_up_token(r.0.auth_token@) && r.1
                },
                None => is_made_up_token(r.0.auth_token@) && is_made_up_id(r.0.device_id) && r.1,
            },
            r.0.auth_token@.len() > 0,
    {
        match found {
            Some(c) => {
                if c.auth_token.as_str().is_empty() {
                    let device_id = c.device_id;
                    AgentConfig::completed(Some(c), device_id, generate_token())
                } else {
                    (c, false)
                }
            },
            None => AgentConfig::completed(None, DeviceId::new(), generate_token()),
        }
    }
}

/// Who a client is.
#[derive(Debug)]
pub struct ClientConfig {
    pub device_id: DeviceId,
}

impl ClientConfig {
    /// Who a client is, and whether that is to be written out: what was found, else made up.
    pub fn load_or_create(found: Option<ClientConfig>) -> (r: (ClientConfig, bool))
        ensures
            match found {
                Some(c) => r.0.device_id == c.device_id && !r.1,
                None => is_made_up_id(r.0.device_id) && r.1,
            },
    {
        match found {
            Some(c) => (c, false),
            None => (ClientConfig { device_id: DeviceId::new() }, true),
        }
    }
}

} // verus!
