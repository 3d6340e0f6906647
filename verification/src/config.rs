//! The storage configuration, and the choice of the database file's
//! location from the values the environment offers.

use vstd::prelude::*;

verus! {

/// Which storage backend the application runs on.
#[derive(Debug)]
pub enum DatabaseConfig {
    SQLite { path: String },
}

/// Everything the application reads at startup.
#[derive(Debug)]
pub struct AppConfig {
    pub database: DatabaseConfig,
}

/// Where the database file lives, given what the environment offers: an
/// explicit override wins; otherwise the data directory, then the home
/// directory's data subtree, then the working directory.
pub open spec fn spec_db_path(
    override_path: Option<Seq<char>>,
    xdg_data_home: Option<Seq<char>>,
    home: Option<Seq<char>>,
    current_dir: Seq<char>,
) -> Seq<char> {
    match override_path {
        Some(p) => p,
        None => match xdg_data_home {
            Some(x) => x + "/microplatter/recordings.db"@,
            None => match home {
                Some(h) => h + "/.local/share/microplatter/recordings.db"@,
                None => current_dir + "/recordings.db"@,
            },
        },
    }
}

/// Chooses the database file's path from the environment's values; the
/// caller reads the variables and creates the parent directory.
pub fn resolve_db_path(
    override_path: Option<&str>,
    xdg_data_home: Option<&str>,
    home: Option<&str>,
    current_dir: &str,
) -> (r: String)
    ensures
        r@ == spec_db_path(
            match override_path {
                Some(p) => Some(p@),
                None => None,
            },
            match xdg_data_home {
                Some(x) => Some(x@),
                None => None,
            },
            match home {
                Some(h) => Some(h@),
                None => None,
            },
            current_dir@,
        ),
{
    match override_path {
        Some(p) => p.to_owned(),
        None => match xdg_data_home {
            Some(x) => {
                let mut out = x.to_owned();
                out.append("/microplatter/recordings.db");
                out
            },
            None => match home {
                Some(h) => {
                    let mut out = h.to_owned();
                    out.append("/.local/share/microplatter/recordings.db");
                    out
                },
                None => {
                    let mut out = current_dir.to_owned();
                    out.append("/recordings.db");
                    out
                },
            },
        },
    }
}

impl AppConfig {
    /// A configuration that stores into the database file at this path.
    pub fn sqlite(path: String) -> (r: AppConfig)
        ensures
            r.database matches DatabaseConfig::SQLite { path: p } && p@ == path@,
    {
        AppConfig { database: DatabaseConfig::SQLite { path } }
    }
}

} // verus!
