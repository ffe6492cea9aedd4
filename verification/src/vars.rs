//! Variable specifications and their parsers: host variables
//! (`alias[:host[:hn|:fqdn]]`), constants (`name=value`) and literal
//! lists (`name=v1=v2=...`).

use vstd::prelude::*;
use crate::text::{
    before_first, first_index, seq_case_eq, split_all, split_by, split_first, str_case_eq,
};

verus! {

/// How a resolved address is enriched through reverse DNS before it is
/// stored in a host variable's value list.
#[derive(Clone, Copy, PartialEq, Eq, Structural, Debug)]
pub enum ReverseMode {
    /// No reverse lookup: the address string itself is stored.
    Off,
    /// Reverse lookup; only the part of the name before the first `.` is
    /// kept.
    Hostname,
    /// Reverse lookup; the returned name is kept verbatim.
    Fqdn,
}

/// A template variable bound to the addresses a hostname resolves to.
#[derive(Debug)]
pub struct HostVar {
    /// The name the template sees.
    pub alias: String,
    /// The name that is looked up; defaults to the alias.
    pub hostname: String,
    /// Whether and how resolved addresses are reverse-enriched.
    pub reverse: ReverseMode,
}

/// One variable of an invocation.
#[derive(Debug)]
pub enum VariableSpec {
    /// Resolved through DNS on every pass.
    Host(HostVar),
    /// A fixed string.
    Constant { name: String, value: String },
    /// A fixed, ordered list of strings.
    Literal { name: String, values: Vec<String> },
}

/// The reverse mode a mode suffix denotes: `hn` and `fqdn` are
/// recognised whatever their case; anything else means no reverse
/// lookup.
pub open spec fn mode_of(m: Seq<char>) -> ReverseMode {
    if seq_case_eq(m, "hn"@) {
        ReverseMode::Hostname
    } else if seq_case_eq(m, "fqdn"@) {
        ReverseMode::Fqdn
    } else {
        ReverseMode::Off
    }
}

/// The alias of a host-variable specification: everything before the
/// first `:`, or all of it.
pub open spec fn spec_host_alias(s: Seq<char>) -> Seq<char> {
    before_first(s, ':')
}

/// The hostname of a host-variable specification: the piece after the
/// first `:`, up to the next `:`; without any `:` the alias itself.
pub open spec fn spec_host_hostname(s: Seq<char>) -> Seq<char> {
    match first_index(s, ':') {
        Option::Some(i) => before_first(s.skip(i + 1), ':'),
        Option::None => s,
    }
}

/// The reverse mode of a host-variable specification: whatever follows
/// the second `:`, interpreted by `mode_of`; absent, no reverse lookup.
pub open spec fn spec_host_mode(s: Seq<char>) -> ReverseMode {
    match first_index(s, ':') {
        Option::Some(i) => match first_index(s.skip(i + 1), ':') {
            Option::Some(j) => mode_of(s.skip(i + 1).skip(j + 1)),
            Option::None => ReverseMode::Off,
        },
        Option::None => ReverseMode::Off,
    }
}

/// Parses a mode suffix.
pub fn parse_mode(m: &str) -> (r: ReverseMode)
    ensures
        r == mode_of(m@),
{
    if str_case_eq(m, "hn") {
        ReverseMode::Hostname
    } else if str_case_eq(m, "fqdn") {
        ReverseMode::Fqdn
    } else {
        ReverseMode::Off
    }
}

/// Parses a host-variable specification `alias[:host[:mode]]`.  Every
/// string is accepted; missing pieces fall back as the specification
/// functions state.
pub fn parse_host_spec(s: &str) -> (r: HostVar)
    ensures
        r.alias@ == spec_host_alias(s@),
        r.hostname@ == spec_host_hostname(s@),
        r.reverse == spec_host_mode(s@),
{
    let (alias, rest_opt) = split_first(s, ':');
    match rest_opt {
        Option::Some(rest) => {
            let (host, mode_opt) = split_first(rest.as_str(), ':');
            let reverse = match mode_opt {
                Option::Some(m) => parse_mode(m.as_str()),
                Option::None => ReverseMode::Off,
            };
            HostVar { alias, hostname: host, reverse }
        },
        Option::None => {
            let hostname = alias.clone();
            HostVar { alias, hostname, reverse: ReverseMode::Off }
        },
    }
}

/// Parses a constant specification `name=value`, splitting at the first
/// `=`.  A string without `=` denotes no constant.
pub fn parse_const_spec(s: &str) -> (r: Option<(String, String)>)
    ensures
        match first_index(s@, '=') {
            Option::Some(i) => r is Some && (r->0).0@ == s@.take(i) && (r->0).1@ == s@.skip(i + 1),
            Option::None => r is None,
        },
{
    let (name, rest_opt) = split_first(s, '=');
    match rest_opt {
        Option::Some(value) => Option::Some((name, value)),
        Option::None => Option::None,
    }
}

/// Parses a list specification `name=v1=v2=...`, splitting the part
/// after the first `=` at every further `=`.  A string without `=`
/// denotes no list.
pub fn parse_list_spec(s: &str) -> (r: Option<(String, Vec<String>)>)
    ensures
        match first_index(s@, '=') {
            Option::Some(i) => r is Some && (r->0).0@ == s@.take(i) && (r->0).1@.map_values(
                |t: String| t@,
            ) == split_by(s@.skip(i + 1), '='),
            Option::None => r is None,
        },
{
    let (name, rest_opt) = split_first(s, '=');
    match rest_opt {
        Option::Some(rest) => {
            let values = split_all(rest.as_str(), '=');
            Option::Some((name, values))
        },
        Option::None => Option::None,
    }
}

} // verus!
