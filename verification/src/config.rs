//! Service configuration: choosing the section for the requested
//! environment, validating it, and where the configuration file lives.

use vstd::prelude::*;
use crate::text::{ascii_upper, chars_equal, chars_of, to_ascii_upper};

verus! {

/// The settings of one environment.
pub struct SecExireConf {
    pub redis_url: String,
    pub secrets_file_path: String,
    pub listening_port_address: String,
    pub signal_server_address: String,
}

/// The configuration file: one optional section per environment.
pub struct Conf {
    pub production: Option<SecExireConf>,
    pub development: Option<SecExireConf>,
    pub staging: Option<SecExireConf>,
}

/// Why no configuration section could be chosen.
#[derive(PartialEq, Eq, Structural, Debug, Clone, Copy)]
pub enum ConfError {
    /// The production environment was asked for and has no section.
    ProductionMissing,
    /// The development or staging environment was asked for and the
    /// development section is absent.
    DevelopmentMissing,
    /// The environment is none of development, staging and production.
    InvalidEnv,
}

impl ConfError {
    pub open spec fn spec_message(self) -> Seq<char> {
        match self {
            ConfError::ProductionMissing => "error: production credentials not found!"@,
            ConfError::DevelopmentMissing => "error: development credentials not found!"@,
            ConfError::InvalidEnv => "error: invalid env type flag [development/staging/production]"@,
        }
    }

    /// The message reported for the error.
    pub fn message(&self) -> (r: String)
        ensures
            r@ == self.spec_message(),
    {
        match self {
            ConfError::ProductionMissing => String::from_str(
                "error: production credentials not found!",
            ),
            ConfError::DevelopmentMissing => String::from_str(
                "error: development credentials not found!",
            ),
            ConfError::InvalidEnv => String::from_str(
                "error: invalid env type flag [development/staging/production]",
            ),
        }
    }
}

/// Which section an environment name asks for, compared without regard to
/// ASCII case. The staging environment is refused when the development
/// section is missing, and otherwise gets the staging section.
pub open spec fn selected_section(env: Seq<char>, conf: Conf) -> Result<SecExireConf, ConfError> {
    let u = ascii_upper(env);
    if u == "PRODUCTION"@ {
        match conf.production {
            Some(c) => Ok(c),
            None => Err(ConfError::ProductionMissing),
        }
    } else if u == "DEVELOPMENT"@ {
        match conf.development {
            Some(c) => Ok(c),
            None => Err(ConfError::DevelopmentMissing),
        }
    } else if u == "STAGING"@ {
        match conf.development {
            None => Err(ConfError::DevelopmentMissing),
            Some(_) => Ok(conf.staging.unwrap()),
        }
    } else {
        Err(ConfError::InvalidEnv)
    }
}

/// The staging environment with a development section and no staging section:
/// the one request on which the service stops with a panic instead of an error.
pub open spec fn selection_unwraps_nothing(env: Seq<char>, conf: Conf) -> bool {
    ascii_upper(env) == "STAGING"@ && conf.development is Some && conf.staging is None
}

fn upper_is(u: &Vec<char>, name: &str) -> (r: bool)
    ensures
        r == (u@ == name@),
{
    let n = chars_of(name);
    chars_equal(u, &n)
}

/// Whether choosing the section for `env` would find the staging section
/// missing after the development section was found.
pub fn selection_panics(env: &str, conf: &Conf) -> (r: bool)
    ensures
        r == selection_unwraps_nothing(env@, *conf),
{
    let u = to_ascii_upper(&chars_of(env));
    upper_is(&u, "STAGING") && conf.development.is_some() && conf.staging.is_none()
}

/// Chooses the configuration section for the environment `env`.
pub fn select_conf(env: &str, conf: Conf) -> (r: Result<SecExireConf, ConfError>)
    requires
        !selection_unwraps_nothing(env@, conf),
    ensures
        r == selected_section(env@, conf),
{
    let u = to_ascii_upper(&chars_of(env));
    if upper_is(&u, "PRODUCTION") {
        match conf.production {
            Some(c) => Ok(c),
            None => Err(ConfError::ProductionMissing),
        }
    } else if upper_is(&u, "DEVELOPMENT") {
        match conf.development {
            Some(c) => Ok(c),
            None => Err(ConfError::DevelopmentMissing),
        }
    } else if upper_is(&u, "STAGING") {
        match conf.development {
            None => Err(ConfError::DevelopmentMissing),
            Some(_) => match conf.staging {
                Some(c) => Ok(c),
                None => Err(ConfError::DevelopmentMissing),
            },
        }
    } else {
        Err(ConfError::InvalidEnv)
    }
}

/// Whether the regular expression `pattern` matches somewhere in `text`, as
/// the `regex` crate decides it; `None` where the crate refuses the pattern.
pub uninterp spec fn regex_match(pattern: Seq<char>, text: Seq<char>) -> Option<bool>;

/// `regex::Regex::new(pattern)`, then `is_match(text)` on the compiled
/// expression; a refused pattern gives `None`. The answer is taken as a
/// function of the pattern and the text alone. Beyond that, only this is
/// stated: the two address patterns are accepted. `Regex::new` refuses a
/// pattern only for a syntax error or for exceeding the size limit, and
/// these two use only anchors, escapes, classes and counted repetitions that
/// the crate's syntax documents, at a size far below the limit.
#[verifier::external_body]
fn regex_is_match(pattern: &str, text: &str) -> (r: Option<bool>)
    ensures
        r == regex_match(pattern@, text@),
        pattern@ == listening_address_pattern() || pattern@ == signal_server_address_pattern()
            ==> r is Some,
{
    match regex::Regex::new(pattern) {
        Ok(re) => Some(re.is_match(text)),
        Err(_) => None,
    }
}

/// The form a listening address must have: four dotted numbers and a port.
pub open spec fn listening_address_pattern() -> Seq<char> {
    "^\\d{1,3}\\.\\d{1,3}\\.\\d{1,3}\\.\\d{1,3}:\\d{1,5}$"@
}

/// The form a signal server address must have: a host name and an optional port.
pub open spec fn signal_server_address_pattern() -> Seq<char> {
    "^[\\.a-zA-Z0-9\\-]+:{0,1}\\d{0,5}$"@
}

/// The verdict on a configuration section from its three checks, made in
/// order: the listening address, the signal server address, then the
/// secrets file.
pub open spec fn sanitize_verdict(
    listening_ok: bool,
    signal_ok: bool,
    secrets_exist: bool,
    secrets_file_path: Seq<char>,
) -> (bool, Seq<char>) {
    if !listening_ok {
        (false, "error: invalid listening_port_address [USAGE: 0.0.0.0:9000]"@)
    } else if !signal_ok {
        (false, "error: invalid signal_server_address [USAGE: http://localhost:9000]"@)
    } else if !secrets_exist {
        (false, "error: path["@ + secrets_file_path + "] secrets_file_path doesn't exist"@)
    } else {
        (true, "successful"@)
    }
}

/// The verdict on a configuration section, given the outcome of each check.
pub fn sanitize_outcome(
    listening_ok: bool,
    signal_ok: bool,
    secrets_exist: bool,
    secrets_file_path: &str,
) -> (r: (bool, String))
    ensures
        r.0 == sanitize_verdict(listening_ok, signal_ok, secrets_exist, secrets_file_path@).0,
        r.1@ == sanitize_verdict(listening_ok, signal_ok, secrets_exist, secrets_file_path@).1,
{
    if !listening_ok {
        (false, String::from_str("error: invalid listening_port_address [USAGE: 0.0.0.0:9000]"))
    } else if !signal_ok {
        (
            false,
            String::from_str("error: invalid signal_server_address [USAGE: http://localhost:9000]"),
        )
    } else if !secrets_exist {
        let mut m = String::from_str("error: path[");
        m.append(secrets_file_path);
        m.append("] secrets_file_path doesn't exist");
        (false, m)
    } else {
        (true, String::from_str("successful"))
    }
}

/// Whether `text` matches the regular expression `pattern` (false where the
/// pattern is refused).
pub open spec fn matches_pattern(pattern: Seq<char>, text: Seq<char>) -> bool {
    regex_match(pattern, text) == Some(true)
}

/// The verdict on a configuration section whose secrets file exists just
/// when `secrets_exist`.
pub open spec fn sanitized(conf: SecExireConf, secrets_exist: bool) -> (bool, Seq<char>) {
    sanitize_verdict(
        matches_pattern(listening_address_pattern(), conf.listening_port_address@),
        matches_pattern(signal_server_address_pattern(), conf.signal_server_address@),
        secrets_exist,
        conf.secrets_file_path@,
    )
}

/// Checks a configuration section: the listening address and the signal
/// server address against their patterns, then whether the secrets file
/// exists (`secrets_exist`, which the caller learns from the file system).
pub fn sanitize_conf(conf: &SecExireConf, secrets_exist: bool) -> (r: (bool, String))
    ensures
        r.0 == sanitized(*conf, secrets_exist).0,
        r.1@ == sanitized(*conf, secrets_exist).1,
        regex_match(listening_address_pattern(), conf.listening_port_address@) is Some,
        regex_match(signal_server_address_pattern(), conf.signal_server_address@) is Some,
{
    let listening = regex_is_match(
        "^\\d{1,3}\\.\\d{1,3}\\.\\d{1,3}\\.\\d{1,3}:\\d{1,5}$",
        conf.listening_port_address.as_str(),
    );
    let signal = regex_is_match(
        "^[\\.a-zA-Z0-9\\-]+:{0,1}\\d{0,5}$",
        conf.signal_server_address.as_str(),
    );
    let a = listening.unwrap();
    let b = signal.unwrap();
    sanitize_outcome(a, b, secrets_exist, conf.secrets_file_path.as_str())
}

/// The configuration directory under the home directory `home`, and the
/// configuration file in it.
pub fn config_locations(home: &str) -> (r: (String, String))
    ensures
        r.0@ == home@ + "/.securum_exire"@,
        r.1@ == home@ + "/.securum_exire"@ + "/securum.toml.example"@,
{
    let mut dir = String::from_str(home);
    dir.append("/.securum_exire");
    let mut file = String::from_str(dir.as_str());
    file.append("/securum.toml.example");
    (dir, file)
}

} // verus!

verus! {

/// Each environment gets its own section and no other. Production gets the
/// production section when there is one and is refused as missing
/// otherwise; development likewise with the development section; staging,
/// when its choice does not stop the service, gets the staging section when
/// the development section is present and is refused as missing development
/// otherwise; any other name is refused as invalid.
pub proof fn lemma_environment_gets_its_own_section(env: Seq<char>, conf: Conf)
    ensures
        ({
            let u = ascii_upper(env);
            let r = selected_section(env, conf);
            &&& u == "PRODUCTION"@ ==> (r is Ok <==> conf.production is Some) && (conf.production is Some
                ==> r == Ok::<SecExireConf, ConfError>(conf.production->0)) && (conf.production is None
                ==> r == Err::<SecExireConf, ConfError>(ConfError::ProductionMissing))
            &&& u == "DEVELOPMENT"@ ==> (r is Ok <==> conf.development is Some) && (
            conf.development is Some ==> r == Ok::<SecExireConf, ConfError>(conf.development->0)) && (
            conf.development is None ==> r == Err::<SecExireConf, ConfError>(
                ConfError::DevelopmentMissing,
            ))
            &&& u == "STAGING"@ && !selection_unwraps_nothing(env, conf) ==> (r is Ok <==> (
            conf.development is Some && conf.staging is Some)) && (conf.development is Some
                && conf.staging is Some ==> r == Ok::<SecExireConf, ConfError>(conf.staging->0)) && (
            conf.development is None ==> r == Err::<SecExireConf, ConfError>(
                ConfError::DevelopmentMissing,
            ))
            &&& u != "PRODUCTION"@ && u != "DEVELOPMENT"@ && u != "STAGING"@ ==> r == Err::<
                SecExireConf,
                ConfError,
            >(ConfError::InvalidEnv)
        }),
{
    reveal_strlit("PRODUCTION");
    reveal_strlit("DEVELOPMENT");
    reveal_strlit("STAGING");
    assert("PRODUCTION"@.len() == 10);
    assert("DEVELOPMENT"@.len() == 11);
    assert("STAGING"@.len() == 7);
    assert("PRODUCTION"@ != "DEVELOPMENT"@);
    assert("PRODUCTION"@ != "STAGING"@);
    assert("DEVELOPMENT"@ != "STAGING"@);
}

/// A section is accepted exactly when all three checks pass; the first check
/// that fails, in the order listening address, signal server address,
/// secrets file, decides the message, whatever the later checks give.
pub proof fn lemma_sanitize_accepts_only_when_all_pass(
    listening_ok: bool,
    signal_ok: bool,
    secrets_exist: bool,
    path: Seq<char>,
)
    ensures
        sanitize_verdict(listening_ok, signal_ok, secrets_exist, path).0 <==> (listening_ok && signal_ok
            && secrets_exist),
        !listening_ok ==> sanitize_verdict(listening_ok, signal_ok, secrets_exist, path).1
            == "error: invalid listening_port_address [USAGE: 0.0.0.0:9000]"@,
        listening_ok && !signal_ok ==> sanitize_verdict(listening_ok, signal_ok, secrets_exist, path).1
            == "error: invalid signal_server_address [USAGE: http://localhost:9000]"@,
        listening_ok && signal_ok && !secrets_exist ==> sanitize_verdict(
            listening_ok,
            signal_ok,
            secrets_exist,
            path,
        ).1 == "error: path["@ + path + "] secrets_file_path doesn't exist"@,
        listening_ok && signal_ok && secrets_exist ==> sanitize_verdict(
            listening_ok,
            signal_ok,
            secrets_exist,
            path,
        ).1 == "successful"@,
{
}

/// A configuration section is accepted exactly when its listening address
/// and its signal server address match their patterns and its secrets file
/// exists.
pub proof fn lemma_section_accepted_iff_valid(conf: SecExireConf, secrets_exist: bool)
    ensures
        sanitized(conf, secrets_exist).0 <==> (regex_match(
            listening_address_pattern(),
            conf.listening_port_address@,
        ) == Some(true) && regex_match(signal_server_address_pattern(), conf.signal_server_address@)
            == Some(true) && secrets_exist),
{
    lemma_sanitize_accepts_only_when_all_pass(
        matches_pattern(listening_address_pattern(), conf.listening_port_address@),
        matches_pattern(signal_server_address_pattern(), conf.signal_server_address@),
        secrets_exist,
        conf.secrets_file_path@,
    );
}

/// The environment is named without regard to ASCII case: names that agree
/// once upper-cased choose the same section.
pub proof fn lemma_env_name_case_insensitive(a: Seq<char>, b: Seq<char>, conf: Conf)
    requires
        ascii_upper(a) == ascii_upper(b),
    ensures
        selected_section(a, conf) == selected_section(b, conf),
        selection_unwraps_nothing(a, conf) == selection_unwraps_nothing(b, conf),
{
}

} // verus!
