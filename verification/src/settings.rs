use vstd::prelude::*;

use crate::Error;

verus! {

// User settings: the defaulting rules are verified; reading the settings
// file and writing it back are the caller's business. The TOML document is
// parsed by the toml crate behind trusted declarations, and the verified
// code handles every value the parser may hand back.

/// Settings of the background process monitor.
#[derive(Debug, Clone)]
pub struct ProcessMonitoringSettings {
    pub enabled: bool,
    pub directory_depth: usize,
}

/// The user's settings, with every field at its default when the settings
/// document does not carry it.
#[derive(Debug, Clone)]
pub struct UserSettings {
    pub username: String,
    pub executable_paths: Option<String>,
    pub process_monitoring: ProcessMonitoringSettings,
    pub autostart: bool,
    pub new: bool,
}

/// Declares toml::Value so that parsed values can pass through signatures;
/// the value itself stays opaque, its accessors are declared below.
#[verifier::external_type_specification]
#[verifier::external_body]
pub struct ExTomlValue(toml::Value);

/// Relies on toml::from_str: a TOML document parses into its top-level
/// table, one entry per key; a map keyed by `String` holds each key once.
#[verifier::external_body]
fn parse_toml_table(text: &str) -> (r: Option<Vec<(String, toml::Value)>>)
    ensures
        match r {
            Some(pairs) => forall|i: int, j: int|
                0 <= i < j < pairs@.len() ==> (#[trigger] pairs@[i]).0@ != (
                #[trigger] pairs@[j]).0@,
            None => true,
        },
{
    match toml::from_str::<std::collections::BTreeMap<String, toml::Value>>(text) {
        Ok(table) => Some(table.into_iter().collect()),
        Err(_) => None,
    }
}

/// Relies on toml::Value::as_str: the payload of a string value.
pub assume_specification<'a>[ toml::Value::as_str ](v: &'a toml::Value) -> (r: Option<&'a str>);

/// Relies on toml::Value::as_bool: the payload of a boolean value.
pub assume_specification[ toml::Value::as_bool ](v: &toml::Value) -> (r: Option<bool>);

/// Relies on toml::Value::as_integer: the payload of an integer value.
pub assume_specification[ toml::Value::as_integer ](v: &toml::Value) -> (r: Option<i64>);

/// Relies on toml::Value::as_table: the entries of a table value, one per
/// key.
#[verifier::external_body]
fn table_pairs(v: &toml::Value) -> (r: Option<Vec<(String, toml::Value)>>)
{
    v.as_table().map(|t| t.iter().map(|(k, val)| (k.clone(), val.clone())).collect())
}

/// The entry of `pairs` under `key`, if there is one.
fn lookup<'a>(pairs: &'a Vec<(String, toml::Value)>, key: &String) -> (r: Option<
    &'a toml::Value,
>)
    ensures
        r is Some ==> exists|i: int| 0 <= i < pairs@.len() && (#[trigger] pairs@[i]).0@ == key@,
{
    let mut i: usize = 0;
    while i < pairs.len()
        invariant
            i <= pairs@.len(),
        decreases pairs@.len() - i,
    {
        if pairs[i].0 == *key {
            proof {
                assert(pairs@[i as int].0@ == key@);
            }
            return Some(&pairs[i].1);
        }
        i += 1;
    }
    None
}

/// The directory depth a configured integer yields: the value itself when
/// it is a sane depth, the default of 2 otherwise.
pub open spec fn depth_of(v: Option<i64>) -> int {
    match v {
        None => 2,
        Some(d) => if 0 <= d <= u32::MAX {
            d as int
        } else {
            2
        },
    }
}

/// Assemble the settings from the values the document carried, filling
/// every absent field with its default: the fallback username, no
/// executable paths, monitoring off at depth 2, no autostart, and the
/// fresh-install flag set.
pub fn settings_from_parts(
    username: Option<String>,
    executable_paths: Option<String>,
    enabled: Option<bool>,
    directory_depth: Option<i64>,
    autostart: Option<bool>,
    is_new: Option<bool>,
    fallback_username: String,
) -> (s: UserSettings)
    ensures
        s.username@ == (match username {
            Some(u) => u@,
            None => fallback_username@,
        }),
        (match (s.executable_paths, executable_paths) {
            (Some(a), Some(b)) => a@ == b@,
            (None, None) => true,
            _ => false,
        }),
        s.process_monitoring.enabled == (match enabled {
            Some(e) => e,
            None => false,
        }),
        s.process_monitoring.directory_depth == depth_of(directory_depth),
        s.autostart == (match autostart {
            Some(a) => a,
            None => false,
        }),
        s.new == (match is_new {
            Some(n) => n,
            None => true,
        }),
{
    let depth: usize = match directory_depth {
        None => 2,
        Some(d) => {
            if 0 <= d && d <= u32::MAX as i64 {
                d as usize
            } else {
                2
            }
        },
    };
    UserSettings {
        username: match username {
            Some(u) => u,
            None => fallback_username,
        },
        executable_paths,
        process_monitoring: ProcessMonitoringSettings {
            enabled: match enabled {
                Some(e) => e,
                None => false,
            },
            directory_depth: depth,
        },
        autostart: match autostart {
            Some(a) => a,
            None => false,
        },
        new: match is_new {
            Some(n) => n,
            None => true,
        },
    }
}

fn str_value(v: Option<&toml::Value>) -> (r: Option<String>)
{
    match v {
        Some(v) => match v.as_str() {
            Some(s) => Some(s.to_owned()),
            None => None,
        },
        None => None,
    }
}

fn bool_value(v: Option<&toml::Value>) -> (r: Option<bool>)
{
    match v {
        Some(v) => v.as_bool(),
        None => None,
    }
}

fn integer_value(v: Option<&toml::Value>) -> (r: Option<i64>)
{
    match v {
        Some(v) => v.as_integer(),
        None => None,
    }
}

/// The settings a TOML document yields against a fallback username.
///
/// A document that does not parse is the one error; whatever values the
/// parsed document carries, the defaulting rules of `settings_from_parts`
/// decide every field.
pub fn get_user_settings(text: &str, fallback_username: String) -> (r: Result<UserSettings, Error>)
    ensures
        r is Err ==> r->Err_0@ == crate::ErrorV::TomlParse,
{
    let pairs = match parse_toml_table(text) {
        Some(pairs) => pairs,
        None => {
            return Err(Error::TomlParse);
        },
    };
    let username = str_value(lookup(&pairs, &String::from_str("username")));
    let executable_paths = str_value(lookup(&pairs, &String::from_str("executable_paths")));
    let monitoring = lookup(&pairs, &String::from_str("process_monitoring"));
    let monitoring_pairs = match monitoring {
        Some(v) => table_pairs(v),
        None => None,
    };
    let (enabled, directory_depth) = match &monitoring_pairs {
        Some(mp) => (
            bool_value(lookup(mp, &String::from_str("enabled"))),
            integer_value(lookup(mp, &String::from_str("directory_depth"))),
        ),
        None => (None, None),
    };
    let autostart = bool_value(lookup(&pairs, &String::from_str("autostart")));
    let is_new = bool_value(lookup(&pairs, &String::from_str("new")));
    Ok(
        settings_from_parts(
            username,
            executable_paths,
            enabled,
            directory_depth,
            autostart,
            is_new,
            fallback_username,
        ),
    )
}

} // verus!
