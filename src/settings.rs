use vstd::prelude::*;

use crate::env::{get_env_var, EnvVarError, EnvVars};

verus! {

/// `url::Url`, carried unopened from the parse to the client.
#[verifier::external_type_specification]
#[verifier::external_body]
pub struct ExUrl(url::Url);

/// `url::ParseError`, carried unopened in the error.
#[verifier::external_type_specification]
#[verifier::external_body]
pub struct ExParseError(url::ParseError);

/// Whether `url::Url::parse` takes `s` as an absolute URL.
pub uninterp spec fn url_accepts(s: Seq<char>) -> bool;

/// Relies on url::Url::parse, which succeeds exactly on the strings it reads as an
/// absolute URL; that depends on the string alone.
#[verifier::external_body]
fn parse_url(s: &str) -> (r: Result<url::Url, url::ParseError>)
    ensures
        r is Ok <==> url_accepts(s@),
{
    url::Url::parse(s)
}

/// Address of the configuration service.
pub const APOLLO_URL_ENV: &'static str = "APOLLO_URL";

/// Application id to fetch the configuration of.
pub const APOLLO_APP_ID_ENV: &'static str = "APOLLO_APP_ID";

/// Namespace of the configuration.
pub const APOLLO_NAMESPACE_NAME_ENV: &'static str = "APOLLO_NAMESPACE_NAME";

/// Access key for the fetch.
pub const APOLLO_ACCESS_KEY_ENV: &'static str = "APOLLO_ACCESS_KEY";

/// Configuration key that holds the database host.
pub const DB_IP_KEY_ENV: &'static str = "DB_IP_KEY";

/// Configuration key that holds the database port.
pub const DB_PORT_KEY_ENV: &'static str = "DB_PORT_KEY";

/// The required variables, in the order in which they are read.
pub open spec fn required_names() -> Seq<Seq<char>> {
    seq![
        APOLLO_URL_ENV@,
        APOLLO_APP_ID_ENV@,
        APOLLO_NAMESPACE_NAME_ENV@,
        APOLLO_ACCESS_KEY_ENV@,
        DB_IP_KEY_ENV@,
        DB_PORT_KEY_ENV@,
    ]
}

/// The first of `names` that `env` does not set.
pub open spec fn first_absent(env: Map<Seq<char>, Seq<char>>, names: Seq<Seq<char>>) -> Option<
    Seq<char>,
>
    decreases names.len(),
{
    if names.len() == 0 {
        None
    } else if !env.contains_key(names[0]) {
        Some(names[0])
    } else {
        first_absent(env, names.drop_first())
    }
}

proof fn lemma_first_absent_at(env: Map<Seq<char>, Seq<char>>, names: Seq<Seq<char>>, i: int)
    requires
        0 <= i < names.len(),
        !env.contains_key(names[i]),
        forall|j: int| 0 <= j < i ==> env.contains_key(#[trigger] names[j]),
    ensures
        first_absent(env, names) == Some(names[i]),
    decreases i,
{
    if i > 0 {
        assert(env.contains_key(names[0]));
        assert forall|j: int| 0 <= j < i - 1 implies env.contains_key(
            #[trigger] names.drop_first()[j],
        ) by {
            assert(names.drop_first()[j] == names[j + 1]);
        }
        lemma_first_absent_at(env, names.drop_first(), i - 1);
    }
}

/// When a required variable is not set and every one read before it is, the
/// variable named as missing is that one.
pub proof fn lemma_absent_variable_named(env: Map<Seq<char>, Seq<char>>, i: int)
    requires
        0 <= i < required_names().len(),
        !env.contains_key(required_names()[i]),
        forall|j: int| 0 <= j < i ==> env.contains_key(#[trigger] required_names()[j]),
    ensures
        first_absent(env, required_names()) == Some(required_names()[i]),
{
    lemma_first_absent_at(env, required_names(), i);
}

/// The values of the required variables.
pub struct RequiredVars {
    pub apollo_url: String,
    pub app_id: String,
    pub namespace_name: String,
    pub access_key: String,
    pub db_ip_key: String,
    pub db_port_key: String,
}

/// What the fetch and the report need: the service address parsed, the rest as read.
pub struct Settings {
    pub apollo_url: url::Url,
    pub app_id: String,
    pub namespace_name: String,
    pub access_key: String,
    pub db_ip_key: String,
    pub db_port_key: String,
}

/// Why the settings could not be had.
pub enum SettingsError {
    /// A required variable is not set.
    MissingVar(EnvVarError),
    /// The service address is not an absolute URL.
    InvalidUrl(url::ParseError),
}

/// Reads the required variables in order; the first one that is not set is named
/// in the error.
pub fn read_required_vars(env: &EnvVars) -> (r: Result<RequiredVars, EnvVarError>)
    ensures
        r is Ok <==> first_absent(env@, required_names()) is None,
        r matches Err(e) ==> first_absent(env@, required_names()) == Some(e.name@),
        r matches Ok(v) ==> {
            &&& v.apollo_url@ == env@[APOLLO_URL_ENV@]
            &&& v.app_id@ == env@[APOLLO_APP_ID_ENV@]
            &&& v.namespace_name@ == env@[APOLLO_NAMESPACE_NAME_ENV@]
            &&& v.access_key@ == env@[APOLLO_ACCESS_KEY_ENV@]
            &&& v.db_ip_key@ == env@[DB_IP_KEY_ENV@]
            &&& v.db_port_key@ == env@[DB_PORT_KEY_ENV@]
        },
{
    proof {
        reveal_with_fuel(first_absent, 7);
        let n = required_names();
        assert(n.drop_first() =~= seq![n[1], n[2], n[3], n[4], n[5]]);
        assert(n.drop_first().drop_first() =~= seq![n[2], n[3], n[4], n[5]]);
        assert(n.drop_first().drop_first().drop_first() =~= seq![n[3], n[4], n[5]]);
        assert(n.drop_first().drop_first().drop_first().drop_first() =~= seq![n[4], n[5]]);
        assert(n.drop_first().drop_first().drop_first().drop_first().drop_first() =~= seq![n[5]]);
        assert(seq![n[5]].drop_first() =~= Seq::<Seq<char>>::empty());
    }
    let apollo_url = match get_env_var(env, APOLLO_URL_ENV) {
        Ok(v) => v,
        Err(e) => return Err(e),
    };
    let app_id = match get_env_var(env, APOLLO_APP_ID_ENV) {
        Ok(v) => v,
        Err(e) => return Err(e),
    };
    let namespace_name = match get_env_var(env, APOLLO_NAMESPACE_NAME_ENV) {
        Ok(v) => v,
        Err(e) => return Err(e),
    };
    let access_key = match get_env_var(env, APOLLO_ACCESS_KEY_ENV) {
        Ok(v) => v,
        Err(e) => return Err(e),
    };
    let db_ip_key = match get_env_var(env, DB_IP_KEY_ENV) {
        Ok(v) => v,
        Err(e) => return Err(e),
    };
    let db_port_key = match get_env_var(env, DB_PORT_KEY_ENV) {
        Ok(v) => v,
        Err(e) => return Err(e),
    };
    Ok(RequiredVars { apollo_url, app_id, namespace_name, access_key, db_ip_key, db_port_key })
}

impl RequiredVars {
    /// The settings, given the outcome of parsing `self.apollo_url`.
    pub fn into_settings(self, parsed: Result<url::Url, url::ParseError>) -> (r: Result<
        Settings,
        SettingsError,
    >)
        ensures
            r is Ok <==> parsed is Ok,
            r matches Ok(s) ==> {
                &&& parsed == Ok::<url::Url, url::ParseError>(s.apollo_url)
                &&& s.app_id == self.app_id
                &&& s.namespace_name == self.namespace_name
                &&& s.access_key == self.access_key
                &&& s.db_ip_key == self.db_ip_key
                &&& s.db_port_key == self.db_port_key
            },
            r matches Err(e) ==> (e matches SettingsError::InvalidUrl(p) && parsed == Err::<
                url::Url,
                url::ParseError,
            >(p)),
    {
        match parsed {
            Ok(apollo_url) => Ok(
                Settings {
                    apollo_url,
                    app_id: self.app_id,
                    namespace_name: self.namespace_name,
                    access_key: self.access_key,
                    db_ip_key: self.db_ip_key,
                    db_port_key: self.db_port_key,
                },
            ),
            Err(p) => Err(SettingsError::InvalidUrl(p)),
        }
    }
}

/// Reads the required variables and parses the service address. A missing
/// variable is reported first, naming the first one absent; an address that is
/// not an absolute URL is reported next, so that nothing is fetched with it.
pub fn load_settings(env: &EnvVars) -> (r: Result<Settings, SettingsError>)
    ensures
        first_absent(env@, required_names()) matches Some(n) ==> (r matches Err(
            SettingsError::MissingVar(e),
        ) && e.name@ == n),
        first_absent(env@, required_names()) is None ==> {
            &&& r is Ok <==> url_accepts(env@[APOLLO_URL_ENV@])
            &&& r matches Err(e) ==> e is InvalidUrl
            &&& r matches Ok(s) ==> {
                &&& s.app_id@ == env@[APOLLO_APP_ID_ENV@]
                &&& s.namespace_name@ == env@[APOLLO_NAMESPACE_NAME_ENV@]
                &&& s.access_key@ == env@[APOLLO_ACCESS_KEY_ENV@]
                &&& s.db_ip_key@ == env@[DB_IP_KEY_ENV@]
                &&& s.db_port_key@ == env@[DB_PORT_KEY_ENV@]
            }
        },
{
    match read_required_vars(env) {
        Ok(vars) => {
            let parsed = parse_url(vars.apollo_url.as_str());
            vars.into_settings(parsed)
        },
        Err(e) => Err(SettingsError::MissingVar(e)),
    }
}

} // verus!
