//! Configuration persistence rules: versioned envelopes, the schema check and
//! the size bound. Reading and writing files is done by the caller.

use vstd::prelude::*;

verus! {

/// Upper bound for one persisted configuration document, in bytes.
pub const MAX_CONFIG_FILE_SIZE: u64 = 4194304;

/// A configuration document tagged with its schema version.
#[derive(Clone, Debug, PartialEq, Eq)]
pub struct ConfigEnvelope<T> {
    pub schema_version: u32,
    pub data: T,
}

#[derive(Debug, Clone, PartialEq, Eq)]
pub enum ConfigError {
    Io { path: String, message: String },
    Parse { path: String, message: String },
    Serialize(String),
    UnsupportedSchema { found: u32, supported: u32 },
    Oversized { path: String, actual: u64, max: u64 },
}

/// A TOML configuration file and the newest schema version it accepts.
pub struct TomlConfigStore {
    path: String,
    supported_schema: u32,
}

impl TomlConfigStore {
    pub closed spec fn spec_path(&self) -> Seq<char> {
        self.path@
    }

    pub closed spec fn spec_supported_schema(&self) -> u32 {
        self.supported_schema
    }

    pub fn new(path: String, supported_schema: u32) -> (r: Self)
        ensures
            r.spec_path() == path@,
            r.spec_supported_schema() == supported_schema,
    {
        TomlConfigStore { path, supported_schema }
    }

    pub fn path(&self) -> (r: &str)
        ensures
            r@ == self.spec_path(),
    {
        self.path.as_str()
    }

    pub fn supported_schema(&self) -> (r: u32)
        ensures
            r == self.spec_supported_schema(),
    {
        self.supported_schema
    }

    /// A document of a newer schema than supported is refused.
    pub fn validate_schema(&self, found: u32) -> (r: Result<(), ConfigError>)
        ensures
            found <= self.spec_supported_schema() <==> r is Ok,
            r matches Err(e) ==> e == (ConfigError::UnsupportedSchema {
                found,
                supported: self.spec_supported_schema(),
            }),
    {
        if found > self.supported_schema {
            return Err(ConfigError::UnsupportedSchema { found, supported: self.supported_schema });
        }
        Ok(())
    }

    /// A document longer than the bound is refused before it is parsed.
    pub fn check_size(&self, actual: u64) -> (r: Result<(), ConfigError>)
        ensures
            actual <= MAX_CONFIG_FILE_SIZE <==> r is Ok,
            r matches Err(e) ==> e matches ConfigError::Oversized { path, actual: a, max }
                && path@ == self.spec_path() && a == actual && max == MAX_CONFIG_FILE_SIZE,
    {
        if actual > MAX_CONFIG_FILE_SIZE {
            return Err(
                ConfigError::Oversized {
                    path: self.path.clone(),
                    actual,
                    max: MAX_CONFIG_FILE_SIZE,
                },
            );
        }
        Ok(())
    }
}

} // verus!
