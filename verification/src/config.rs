//! Configuration as plain values, and the configuration directory.
//!
//! Reading and writing the file is I/O and stays outside; the path
//! arithmetic and the shape of the configuration stand here.

use vstd::prelude::*;
use vstd::string::StringExecFns;
use vstd::string::StrSliceExecFns;

verus! {

/// The persisted settings.
#[derive(Debug, Clone)]
pub struct Config {
    /// Download token for the location databases.
    pub token: Option<String>,
    /// File name of the IPv4 database, inside the config directory.
    pub ipv4_db: Option<String>,
    /// File name of the IPv6 database, inside the config directory.
    pub ipv6_db: Option<String>,
}

impl Default for Config {
    /// A configuration with nothing set.
    fn default() -> (r: Self)
        ensures
            r.token is None,
            r.ipv4_db is None,
            r.ipv6_db is None,
    {
        Config { token: None, ipv4_db: None, ipv6_db: None }
    }
}

/// Failure to locate the configuration directory.
#[derive(Debug, Clone, Copy, PartialEq, Eq, Structural)]
pub enum ConfigError {
    /// No home directory could be found.
    NoHomeDirectory,
}

/// Relies on dirs::home_dir: yields the user's home directory, where
/// the environment reveals one. What it holds depends on the
/// environment, so nothing is claimed of the text.
#[verifier::external_body]
fn home_dir_path() -> (r: Option<String>)
{
    dirs::home_dir().map(|p| p.to_string_lossy().into_owned())
}

/// The tool's directory under a home: `<home>/.config/pingx`.
pub open spec fn spec_config_dir_of(home: Seq<char>) -> Seq<char> {
    home + seq!['/', '.', 'c', 'o', 'n', 'f', 'i', 'g', '/', 'p', 'i', 'n', 'g', 'x']
}

/// The configuration directory: `.config/pingx` under the home
/// directory. Fails exactly when no home directory is found.
pub fn get_config_dir() -> (r: Result<String, ConfigError>)
    ensures
        r matches Ok(p) ==> ({
            &&& p@.len() >= 14
            &&& p@ == spec_config_dir_of(p@.take(p@.len() - 14))
        }),
{
    match home_dir_path() {
        Some(home) => {
            let mut path = home;
            proof {
                reveal_strlit("/.config/pingx");
                assert(("/.config/pingx")@ =~= seq![
                    '/', '.', 'c', 'o', 'n', 'f', 'i', 'g', '/', 'p', 'i', 'n', 'g', 'x'
                ]);
            }
            path.append("/.config/pingx");
            proof {
                assert(path@ =~= spec_config_dir_of(path@.take(path@.len() - 14)));
            }
            Ok(path)
        },
        None => Err(ConfigError::NoHomeDirectory),
    }
}

/// The manager: the configuration and the path of the file it came
/// from.
#[derive(Debug, Clone)]
pub struct ConfigManager {
    /// Path of `config.toml` inside the configuration directory.
    pub config_path: String,
    pub config: Config,
}

/// Index of the last `/` in `s`.
pub open spec fn last_slash(s: Seq<char>) -> Option<int>
    decreases s.len(),
{
    if s.len() == 0 {
        None
    } else if s.last() == '/' {
        Some(s.len() - 1)
    } else {
        last_slash(s.drop_last())
    }
}

impl ConfigManager {
    /// A manager over an already-loaded configuration. The path names
    /// a file inside some directory.
    pub fn from_parts(config_path: String, config: Config) -> (r: Self)
        requires
            last_slash(config_path@) is Some,
        ensures
            r.config_path@ == config_path@,
            r.config == config,
            last_slash(r.config_path@) is Some,
    {
        Self { config_path, config }
    }

    /// The directory holding the configuration file: the path up to
    /// its last separator.
    pub fn get_config_dir(&self) -> (r: String)
        requires
            last_slash(self.config_path@) is Some,
        ensures
            last_slash(self.config_path@) matches Some(i) && r@ == self.config_path@.take(i),
    {
        let s = self.config_path.as_str();
        let n = s.unicode_len();
        let mut k = n;
        proof {
            assert(s@.take(n as int) =~= s@);
        }
        while k > 0
            invariant
                s@ == self.config_path@,
                n == s@.len(),
                k <= n,
                last_slash(s@) == last_slash(s@.take(k as int)),
                last_slash(s@) is Some,
            decreases k,
        {
            proof {
                assert(s@.take(k as int).drop_last() =~= s@.take(k as int - 1));
                assert(s@.take(k as int).last() == s@[k as int - 1]);
            }
            let c = s.get_char(k - 1);
            if c == '/' {
                let dir = s.substring_char(0, k - 1);
                proof {
                    assert(dir@ =~= s@.take(k as int - 1));
                }
                return String::from_str(dir);
            }
            k = k - 1;
        }
        proof {
            assert(s@.take(0) =~= Seq::<char>::empty());
            assert(false);
        }
        String::new()
    }
}

} // verus!
