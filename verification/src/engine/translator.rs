//! Translating specs into the native configuration formats.
use vstd::prelude::*;
use vstd::utf8::encode_utf8;

use crate::engine::launchd::{
    dict_to_xml, lemma_plist_of_uid_free, memory_fits, memory_string_value, plist_of, spec_to_plist,
};
use crate::engine::plist_doc::plist_xml;
use crate::engine::supervisord::{conf_text, spec_to_conf};
use crate::engine::systemd::{spec_to_unit, unit_file};
use crate::error::Error;
use crate::types::resource_limits::{MemorySize, ResourceLimits};
use crate::types::service_spec::ServiceSpec;

verus! {

/// Translates a spec into a backend's native configuration.
pub trait ConfigTranslator {
    /// The native configuration of `spec`.
    fn translate(&self, spec: &ServiceSpec) -> Result<String, Error>;

    /// A spec read back from a native configuration.
    fn parse_native(&self, content: &str) -> Result<ServiceSpec, Error>;

    /// File extension of the native format.
    fn extension(&self) -> &'static str;

    /// Backend name.
    fn name(&self) -> &'static str;
}

/// Translates specs into systemd units.
pub struct SystemdTranslator;

/// Translates specs into supervisord program sections.
pub struct SupervisordTranslator;

/// Translates specs into launchd property lists, for a user with home directory `home`.
pub struct LaunchdTranslator {
    /// The user's home directory, where inherited log streams go.
    pub home: String,
}

impl LaunchdTranslator {
    /// The translator for a user with home directory `home`.
    pub fn new(home: &str) -> (t: LaunchdTranslator)
        ensures
            t.home@ == home@,
    {
        LaunchdTranslator { home: home.to_owned() }
    }
}

impl ConfigTranslator for SystemdTranslator {
    fn translate(&self, spec: &ServiceSpec) -> (r: Result<String, Error>)
        ensures
            r matches Ok(s) && s@ == unit_file(*spec),
    {
        Ok(spec_to_unit(spec))
    }

    fn parse_native(&self, content: &str) -> (r: Result<ServiceSpec, Error>)
        ensures
            r matches Err(Error::ConfigError(m)) && m@ == "parsing native systemd units is not yet implemented"@,
    {
        Err(Error::ConfigError("parsing native systemd units is not yet implemented".to_owned()))
    }

    fn extension(&self) -> (r: &'static str)
        ensures
            r@ == "service"@,
    {
        "service"
    }

    fn name(&self) -> (r: &'static str)
        ensures
            r@ == "systemd"@,
    {
        "systemd"
    }
}

impl ConfigTranslator for SupervisordTranslator {
    fn translate(&self, spec: &ServiceSpec) -> (r: Result<String, Error>)
        ensures
            r matches Ok(s) && s@ == conf_text(*spec),
    {
        Ok(spec_to_conf(spec))
    }

    fn parse_native(&self, content: &str) -> (r: Result<ServiceSpec, Error>)
        ensures
            r matches Err(Error::ConfigError(m)) && m@ == "parsing native supervisord configs is not yet implemented"@,
    {
        Err(Error::ConfigError("parsing native supervisord configs is not yet implemented".to_owned()))
    }

    fn extension(&self) -> (r: &'static str)
        ensures
            r@ == "conf"@,
    {
        "conf"
    }

    fn name(&self) -> (r: &'static str)
        ensures
            r@ == "supervisord"@,
    {
        "supervisord"
    }
}

/// Whether a memory size reads within `i64` (or not as a number at all).
fn memory_in_range(m: &Option<MemorySize>) -> (r: bool)
    ensures
        r == (m matches Some(x) ==> (memory_string_value(x.text()) matches Some(v) ==> i64::MIN <= v
            <= i64::MAX)),
{
    match m {
        None => true,
        Some(x) => {
            let t = x.to_string();
            memory_value_in_range(t.as_str())
        },
    }
}

/// Whether a memory string reads within `i64` (or not as a number at all).
fn memory_value_in_range(s: &str) -> (r: bool)
    ensures
        r == (memory_string_value(s@) matches Some(v) ==> i64::MIN <= v <= i64::MAX),
{
    let t = crate::text::trimmed(s);
    let n = t.as_str().unicode_len();
    if n == 0 {
        return true;
    }
    let last = t.as_str().get_char(n - 1);
    let (num, mult): (String, i128) = if last == 'G' {
        (crate::text::string_of(t.as_str(), 0, n - 1), 1073741824)
    } else if last == 'M' {
        (crate::text::string_of(t.as_str(), 0, n - 1), 1048576)
    } else if last == 'K' {
        (crate::text::string_of(t.as_str(), 0, n - 1), 1024)
    } else {
        (t.clone(), 1)
    };
    assert(num@ == crate::engine::launchd::memory_parts(t@).0 && mult == crate::engine::launchd::memory_parts(t@).1) by {
        assert(t@.subrange(0, n - 1) =~= t@.drop_last());
    }
    let num_t = crate::text::trimmed(num.as_str());
    match crate::text::parse_i64(num_t.as_str()) {
        Some(x) => {
            let v: i128 = (x as i128) * mult;
            -9223372036854775808i128 <= v && v <= 9223372036854775807i128
        },
        None => true,
    }
}

impl ConfigTranslator for LaunchdTranslator {
    /// The XML property list; a memory size that does not fit `i64` bytes is refused,
    /// and any other spec is written.
    fn translate(&self, spec: &ServiceSpec) -> (r: Result<String, Error>)
        ensures
            memory_fits(spec.resources) ==> match r {
                Ok(s) => encode_utf8(s@) == plist_xml(plist_of(*spec, self.home@)),
                Err(e) => false,
            },
            !memory_fits(spec.resources) ==> (r matches Err(Error::Serialization(m)) && m@
                == "memory size out of range"@),
    {
        let fits = match &spec.resources {
            None => true,
            Some(res) => memory_in_range(&res.memory_max) && memory_in_range(&res.memory_high),
        };
        if !fits {
            return Err(Error::Serialization("memory size out of range".to_owned()));
        }
        let dict = spec_to_plist(spec, self.home.as_str());
        proof {
            lemma_plist_of_uid_free(*spec, self.home@);
        }
        dict_to_xml(&dict)
    }

    fn parse_native(&self, content: &str) -> (r: Result<ServiceSpec, Error>)
        ensures
            r matches Err(Error::ConfigError(m)) && m@ == "parsing native launchd plists is not yet implemented"@,
    {
        Err(Error::ConfigError("parsing native launchd plists is not yet implemented".to_owned()))
    }

    fn extension(&self) -> (r: &'static str)
        ensures
            r@ == "plist"@,
    {
        "plist"
    }

    fn name(&self) -> (r: &'static str)
        ensures
            r@ == "launchd"@,
    {
        "launchd"
    }
}

} // verus!
