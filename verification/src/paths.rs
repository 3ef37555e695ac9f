//! Per-user locations following the XDG base-directory rules, and the
//! privacy rule for the runtime directory that will hold local sockets. The
//! environment and the file system are read by the caller.

use crate::session::{join_path, joined};
use crate::text::{decimal, decimal_text};
use vstd::prelude::*;

verus! {

#[derive(Clone, Debug, PartialEq, Eq)]
pub enum PathError {
    MissingHome,
    CurrentUid(String),
    InsecureRuntime { path: String },
    RuntimeIo { path: String, message: String },
}

/// An absolute path starts at the root.
pub open spec fn absolute(p: Seq<char>) -> bool {
    p.len() > 0 && p[0] == '/'
}

pub fn is_absolute(p: &str) -> (r: bool)
    ensures
        r == absolute(p@),
{
    p.unicode_len() > 0 && p.get_char(0) == '/'
}

/// An absolute override when set, else the fallback below the home
/// directory, else no location.
pub open spec fn xdg_location(value: Option<Seq<char>>, home: Option<Seq<char>>, fallback: Seq<char>) -> Option<
    Seq<char>,
> {
    match value {
        Some(v) if absolute(v) => Some(v),
        _ => match home {
            Some(h) if absolute(h) => Some(joined(h, fallback)),
            _ => None,
        },
    }
}

pub open spec fn opt_view(o: Option<&str>) -> Option<Seq<char>> {
    match o {
        Some(s) => Some(s@),
        None => None,
    }
}

pub fn xdg_or_home(value: Option<&str>, home: Option<&str>, fallback: &str) -> (r: Result<String, PathError>)
    ensures
        xdg_location(opt_view(value), opt_view(home), fallback@) matches Some(p) ==> (r matches Ok(s)
            && s@ == p),
        xdg_location(opt_view(value), opt_view(home), fallback@) is None ==> r == Err::<String, PathError>(
            PathError::MissingHome,
        ),
{
    if let Some(v) = value {
        if is_absolute(v) {
            return Ok(v.to_owned());
        }
    }
    if let Some(h) = home {
        if is_absolute(h) {
            return Ok(join_path(h, fallback));
        }
    }
    Err(PathError::MissingHome)
}

/// Resolved per-user locations.
#[derive(Clone, Debug, PartialEq, Eq)]
pub struct NexxusPaths {
    config_home: String,
    data_home: String,
    cache_home: String,
    state_home: String,
    runtime_base: String,
    runtime_fallback: bool,
}

/// The environment a location is resolved from, as plain values.
pub struct PathInputs<'a> {
    pub home: Option<&'a str>,
    pub config_home: Option<&'a str>,
    pub data_home: Option<&'a str>,
    pub cache_home: Option<&'a str>,
    pub state_home: Option<&'a str>,
    pub runtime_dir: Option<&'a str>,
    pub temp_dir: &'a str,
}

/// The runtime base used when no absolute runtime directory is set: a
/// per-user directory below the temporary directory.
pub open spec fn fallback_runtime(temp_dir: Seq<char>, uid: u32) -> Seq<char> {
    joined(temp_dir, "nexxus-runtime-"@ + decimal(uid as nat))
}

impl NexxusPaths {
    pub closed spec fn spec_config_home(&self) -> Seq<char> {
        self.config_home@
    }

    pub closed spec fn spec_data_home(&self) -> Seq<char> {
        self.data_home@
    }

    pub closed spec fn spec_cache_home(&self) -> Seq<char> {
        self.cache_home@
    }

    pub closed spec fn spec_state_home(&self) -> Seq<char> {
        self.state_home@
    }

    pub closed spec fn spec_runtime_base(&self) -> Seq<char> {
        self.runtime_base@
    }

    pub closed spec fn spec_runtime_fallback(&self) -> bool {
        self.runtime_fallback
    }

    /// Resolves the locations from the environment. The user id is needed,
    /// and its lookup may fail, only when no runtime directory is set.
    pub fn from_values(inputs: &PathInputs, uid: Result<u32, String>) -> (r: Result<Self, PathError>)
        ensures
            ({
                let home = opt_view(inputs.home);
                let config = xdg_location(opt_view(inputs.config_home), home, ".config"@);
                let data = xdg_location(opt_view(inputs.data_home), home, ".local/share"@);
                let cache = xdg_location(opt_view(inputs.cache_home), home, ".cache"@);
                let state = xdg_location(opt_view(inputs.state_home), home, ".local/state"@);
                let runtime_set = inputs.runtime_dir matches Some(d) && absolute(d@);
                if config is None || data is None || cache is None || state is None {
                    r == Err::<NexxusPaths, PathError>(PathError::MissingHome)
                } else if !runtime_set && uid is Err {
                    r matches Err(PathError::CurrentUid(m)) && uid matches Err(u) && m == u
                } else {
                    r matches Ok(p) && p.spec_config_home() == config->0 && p.spec_data_home() == data->0
                        && p.spec_cache_home() == cache->0 && p.spec_state_home() == state->0
                        && p.spec_runtime_fallback() == !runtime_set && (runtime_set ==> p.spec_runtime_base()
                        == inputs.runtime_dir->0@) && (!runtime_set ==> (uid matches Ok(u)
                        && p.spec_runtime_base() == fallback_runtime(inputs.temp_dir@, u)))
                }
            }),
    {
        let config_home = match xdg_or_home(inputs.config_home, inputs.home, ".config") {
            Ok(p) => p,
            Err(e) => return Err(e),
        };
        let data_home = match xdg_or_home(inputs.data_home, inputs.home, ".local/share") {
            Ok(p) => p,
            Err(e) => return Err(e),
        };
        let cache_home = match xdg_or_home(inputs.cache_home, inputs.home, ".cache") {
            Ok(p) => p,
            Err(e) => return Err(e),
        };
        let state_home = match xdg_or_home(inputs.state_home, inputs.home, ".local/state") {
            Ok(p) => p,
            Err(e) => return Err(e),
        };
        let set = match inputs.runtime_dir {
            Some(d) => if is_absolute(d) {
                Some(d)
            } else {
                None
            },
            None => None,
        };
        let (runtime_base, runtime_fallback) = match set {
            Some(d) => (d.to_owned(), false),
            None => {
                let u = match uid {
                    Ok(u) => u,
                    Err(m) => return Err(PathError::CurrentUid(m)),
                };
                let name = "nexxus-runtime-".to_owned().concat(decimal_text(u as u64).as_str());
                (join_path(inputs.temp_dir, name.as_str()), true)
            },
        };
        Ok(NexxusPaths { config_home, data_home, cache_home, state_home, runtime_base, runtime_fallback })
    }

    pub fn config_dir(&self) -> (r: String)
        ensures
            r@ == joined(self.spec_config_home(), "nexxus"@),
    {
        join_path(self.config_home.as_str(), "nexxus")
    }

    pub fn data_dir(&self) -> (r: String)
        ensures
            r@ == joined(self.spec_data_home(), "nexxus"@),
    {
        join_path(self.data_home.as_str(), "nexxus")
    }

    pub fn cache_dir(&self) -> (r: String)
        ensures
            r@ == joined(self.spec_cache_home(), "nexxus"@),
    {
        join_path(self.cache_home.as_str(), "nexxus")
    }

    pub fn state_dir(&self) -> (r: String)
        ensures
            r@ == joined(self.spec_state_home(), "nexxus"@),
    {
        join_path(self.state_home.as_str(), "nexxus")
    }

    /// The runtime directory of the desktop, below the runtime base.
    pub fn runtime_dir(&self) -> (r: String)
        ensures
            r@ == joined(self.spec_runtime_base(), "nexxus"@),
    {
        join_path(self.runtime_base.as_str(), "nexxus")
    }

    /// The runtime base directory.
    pub fn runtime_base(&self) -> (r: &str)
        ensures
            r@ == self.spec_runtime_base(),
    {
        self.runtime_base.as_str()
    }

    pub fn uses_runtime_fallback(&self) -> (r: bool)
        ensures
            r == self.spec_runtime_fallback(),
    {
        self.runtime_fallback
    }
}

/// A private directory is a real directory of the user, closed to group and
/// others. A symlink is refused even when it points at such a directory.
pub open spec fn private_dir(is_symlink: bool, is_dir: bool, owner: u32, mode: u32, uid: u32) -> bool {
    !is_symlink && is_dir && owner == uid && (mode % 512) % 64 == 0
}

/// Checks what was observed of a runtime directory against the privacy rule.
pub fn validate_private_dir(path: &str, is_symlink: bool, is_dir: bool, owner: u32, mode: u32, uid: u32) -> (r:
    Result<(), PathError>)
    ensures
        private_dir(is_symlink, is_dir, owner, mode, uid) ==> r is Ok,
        !private_dir(is_symlink, is_dir, owner, mode, uid) ==> (r matches Err(PathError::InsecureRuntime {
            path: p,
        }) && p@ == path@),
{
    let permissions = mode % 512;
    if is_symlink || !is_dir || owner != uid || permissions % 64 != 0 {
        return Err(PathError::InsecureRuntime { path: path.to_owned() });
    }
    Ok(())
}

} // verus!
