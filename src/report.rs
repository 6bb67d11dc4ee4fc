use vstd::prelude::*;

verus! {

/// `ini::Properties`, the fetched configuration; read only through `property`.
#[verifier::external_type_specification]
#[verifier::external_body]
pub struct ExProperties(ini::Properties);

/// What a fetched configuration holds: each key mapped to its first value.
pub uninterp spec fn properties_map(p: ini::Properties) -> Map<Seq<char>, Seq<char>>;

/// Relies on ini::Properties::get, which gives the first value stored under `key`,
/// or nothing when no value is stored under it.
#[verifier::external_body]
fn property(p: &ini::Properties, key: &str) -> (r: Option<String>)
    ensures
        r is Some <==> properties_map(*p).contains_key(key@),
        r matches Some(v) ==> v@ == properties_map(*p)[key@],
{
    p.get(key).map(|v| v.to_string())
}

/// The outcome of looking up the database host and port.
pub enum Report {
    /// Both were found.
    Found { host: String, port: String },
    /// The host key was not found.
    MissingHost { key: String },
    /// The host key was found, the port key was not.
    MissingPort { key: String },
}

/// The outcome, given what the lookups of `host_key` and `port_key` gave; a missing
/// host is reported before a missing port.
pub fn report_lookup(host: Option<String>, port: Option<String>, host_key: &str, port_key: &str) -> (r:
    Report)
    ensures
        host is None ==> (r matches Report::MissingHost { key } && key@ == host_key@),
        host is Some && port is None ==> (r matches Report::MissingPort { key } && key@
            == port_key@),
        host is Some && port is Some ==> (r matches Report::Found { host: rh, port: rp } && host
            == Some(rh) && port == Some(rp)),
{
    match (host, port) {
        (Some(h), Some(p)) => Report::Found { host: h, port: p },
        (None, _) => Report::MissingHost { key: String::from_str(host_key) },
        (_, None) => Report::MissingPort { key: String::from_str(port_key) },
    }
}

/// Looks up `host_key` and `port_key` in the fetched configuration.
pub fn report(config: &ini::Properties, host_key: &str, port_key: &str) -> (r: Report)
    ensures
        !properties_map(*config).contains_key(host_key@) ==> (r matches Report::MissingHost {
            key,
        } && key@ == host_key@),
        properties_map(*config).contains_key(host_key@) && !properties_map(
            *config,
        ).contains_key(port_key@) ==> (r matches Report::MissingPort { key } && key@ == port_key@),
        properties_map(*config).contains_key(host_key@) && properties_map(*config).contains_key(
            port_key@,
        ) ==> (r matches Report::Found { host, port } && host@ == properties_map(*config)[host_key@]
            && port@ == properties_map(*config)[port_key@]),
{
    let host = property(config, host_key);
    let port = property(config, port_key);
    report_lookup(host, port, host_key, port_key)
}

impl Report {
    /// What goes to standard output: `host:port` and a line break when both were
    /// found, nothing otherwise.
    pub fn stdout_text(&self) -> (r: String)
        ensures
            self matches Report::Found { host, port } ==> r@ == host@ + ":"@ + port@ + "\n"@,
            !(self is Found) ==> r@ == Seq::<char>::empty(),
    {
        match self {
            Report::Found { host, port } => {
                let mut r = host.clone();
                r.append(":");
                r.append(port.as_str());
                r.append("\n");
                r
            },
            _ => String::new(),
        }
    }

    /// The error to log when a key was not found.
    pub fn log_message(&self) -> (r: Option<String>)
        ensures
            self is Found ==> r is None,
            self matches Report::MissingHost { key } ==> (r matches Some(m) && m@
                == "Database host key '"@ + key@ + "' not found in configuration"@),
            self matches Report::MissingPort { key } ==> (r matches Some(m) && m@
                == "Database port key '"@ + key@ + "' not found in configuration"@),
    {
        match self {
            Report::Found { .. } => None,
            Report::MissingHost { key } => {
                let mut m = String::from_str("Database host key '");
                m.append(key.as_str());
                m.append("' not found in configuration");
                Some(m)
            },
            Report::MissingPort { key } => {
                let mut m = String::from_str("Database port key '");
                m.append(key.as_str());
                m.append("' not found in configuration");
                Some(m)
            },
        }
    }
}

} // verus!
