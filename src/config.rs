//! Resolution of the three values a run needs: the source root, the backup
//! root and the interval between scheduled passes.
use vstd::prelude::*;

verus! {

/// Hours between two scheduled passes when none is given or it does not parse.
pub const DEFAULT_INTERVAL_HOURS: u64 = 24;

/// The resolved configuration of a run.
#[derive(Clone, Debug)]
pub struct MirrorConfig {
    pub source_root: String,
    pub backup_root: String,
    pub interval_hours: u64,
}

/// Why a configuration could not be resolved.
#[derive(Clone, Copy, Debug, PartialEq, Eq, Structural)]
pub enum ConfigError {
    MissingSourceRoot,
    MissingBackupRoot,
}

impl ConfigError {
    /// A message for the user.
    pub fn message(&self) -> (r: String) {
        match self {
            ConfigError::MissingSourceRoot => String::from_str(
                "SOURCE_DIR not provided via argument or environment variable",
            ),
            ConfigError::MissingBackupRoot => String::from_str(
                "BACKUP_DIR not provided via argument or environment variable",
            ),
        }
    }
}

pub open spec fn is_digit(c: char) -> bool {
    '0' <= c && c <= '9'
}

/// The value of a sequence of decimal digits.
pub open spec fn digits_value(s: Seq<char>) -> int
    decreases s.len(),
{
    if s.len() == 0 {
        0
    } else {
        digits_value(s.drop_last()) * 10 + (s.last() as int - '0' as int)
    }
}

/// The digits of an unsigned decimal: the text without one leading `+`.
pub open spec fn unsigned_digits(s: Seq<char>) -> Seq<char> {
    if s.len() > 0 && s[0] == '+' {
        s.drop_first()
    } else {
        s
    }
}

/// What parsing `s` as a `u64` gives: an optional `+` followed by at least
/// one decimal digit, with a value that fits.
pub open spec fn parsed_u64(s: Seq<char>) -> Option<u64> {
    let d = unsigned_digits(s);
    if d.len() > 0 && (forall|i: int| 0 <= i < d.len() ==> is_digit(#[trigger] d[i]))
        && digits_value(d) <= u64::MAX {
        Some(digits_value(d) as u64)
    } else {
        None
    }
}

/// Relies on `<u64 as FromStr>::from_str`: it accepts exactly an optional
/// `+` and then one or more decimal digits whose value fits in a `u64`.
#[verifier::external_body]
fn parse_u64(s: &str) -> (r: Option<u64>)
    ensures
        r == parsed_u64(s@),
{
    s.parse::<u64>().ok()
}

pub open spec fn opt_view(o: Option<String>) -> Option<Seq<char>> {
    match o {
        Some(s) => Some(s@),
        None => None,
    }
}

/// The value that wins: the argument, then (for the daemon only) the
/// environment.
pub open spec fn chosen(arg: Option<Seq<char>>, env: Option<Seq<char>>, daemon: bool) -> Option<
    Seq<char>,
> {
    if arg is Some {
        arg
    } else if daemon {
        env
    } else {
        None
    }
}

/// The interval that a run uses: the chosen text parsed as hours, or the
/// default when there is none or it does not parse.
pub open spec fn interval_of(arg: Option<Seq<char>>, env: Option<Seq<char>>, daemon: bool) -> u64 {
    match chosen(arg, env, daemon) {
        Some(t) => match parsed_u64(t) {
            Some(v) => v,
            None => DEFAULT_INTERVAL_HOURS,
        },
        None => DEFAULT_INTERVAL_HOURS,
    }
}

fn pick(arg: Option<String>, env: Option<String>, daemon: bool) -> (r: Option<String>)
    ensures
        opt_view(r) == chosen(opt_view(arg), opt_view(env), daemon),
{
    match arg {
        Some(a) => Some(a),
        None => if daemon {
            env
        } else {
            None
        },
    }
}

/// The interval in hours from the argument text and the environment text.
pub fn resolve_interval(arg: Option<String>, env: Option<String>, daemon: bool) -> (r: u64)
    ensures
        r == interval_of(opt_view(arg), opt_view(env), daemon),
{
    match pick(arg, env, daemon) {
        Some(t) => match parse_u64(t.as_str()) {
            Some(v) => v,
            None => DEFAULT_INTERVAL_HOURS,
        },
        None => DEFAULT_INTERVAL_HOURS,
    }
}

/// Resolves a run's configuration. An argument wins over the environment,
/// which is consulted only for the daemon. A missing source root is reported
/// first, then a missing backup root.
pub fn resolve_config(
    source_arg: Option<String>,
    backup_arg: Option<String>,
    interval_arg: Option<String>,
    source_env: Option<String>,
    backup_env: Option<String>,
    interval_env: Option<String>,
    daemon: bool,
) -> (r: Result<MirrorConfig, ConfigError>)
    ensures
        chosen(opt_view(source_arg), opt_view(source_env), daemon) is None ==> r == Err::<
            MirrorConfig,
            ConfigError,
        >(ConfigError::MissingSourceRoot),
        chosen(opt_view(source_arg), opt_view(source_env), daemon) is Some && chosen(
            opt_view(backup_arg),
            opt_view(backup_env),
            daemon,
        ) is None ==> r == Err::<MirrorConfig, ConfigError>(ConfigError::MissingBackupRoot),
        r is Ok <==> chosen(opt_view(source_arg), opt_view(source_env), daemon) is Some && chosen(
            opt_view(backup_arg),
            opt_view(backup_env),
            daemon,
        ) is Some,
        r matches Ok(c) ==> {
            &&& Some(c.source_root@) == chosen(opt_view(source_arg), opt_view(source_env), daemon)
            &&& Some(c.backup_root@) == chosen(opt_view(backup_arg), opt_view(backup_env), daemon)
            &&& c.interval_hours == interval_of(
                opt_view(interval_arg),
                opt_view(interval_env),
                daemon,
            )
        },
{
    let source_root = match pick(source_arg, source_env, daemon) {
        Some(s) => s,
        None => return Err(ConfigError::MissingSourceRoot),
    };
    let backup_root = match pick(backup_arg, backup_env, daemon) {
        Some(b) => b,
        None => return Err(ConfigError::MissingBackupRoot),
    };
    let interval_hours = resolve_interval(interval_arg, interval_env, daemon);
    Ok(MirrorConfig { source_root, backup_root, interval_hours })
}

} // verus!
