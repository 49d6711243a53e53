//! Process configuration: a builder merging several partial sources, and the
//! resolved configuration handed to every component.

use vstd::prelude::*;

verus! {

/// An absent optional value, the default for every builder field.
pub fn none<T>() -> (r: Option<T>)
    ensures
        r is None,
{
    None
}

/// Whether the process may write revisions or only serve existing ones.
#[derive(Debug, Clone, Copy, PartialEq, Eq, Structural)]
pub enum OperatingMode {
    ReadOnly,
    ReadWrite,
}

impl Default for OperatingMode {
    fn default() -> (r: Self)
        ensures
            r == OperatingMode::ReadWrite,
    {
        OperatingMode::ReadWrite
    }
}

impl OperatingMode {
    /// The mode named by `s`: `Read` or `ReadWrite`, anything else is refused.
    pub fn from_name(s: &str) -> (r: Option<OperatingMode>)
        ensures
            s@ == "Read"@ ==> r == Some(OperatingMode::ReadOnly),
            s@ == "ReadWrite"@ ==> r == Some(OperatingMode::ReadWrite),
            s@ != "Read"@ && s@ != "ReadWrite"@ ==> r is None,
    {
        proof {
            reveal_strlit("Read");
            reveal_strlit("ReadWrite");
            assert("Read"@.len() == 4);
            assert("ReadWrite"@.len() == 9);
        }
        if crate::text::str_eq(s, "Read") {
            Some(OperatingMode::ReadOnly)
        } else if crate::text::str_eq(s, "ReadWrite") {
            Some(OperatingMode::ReadWrite)
        } else {
            None
        }
    }
}

/// The resolved configuration: where the cache, the record store and the
/// content tree live, whether debug output is wanted, and the operating mode.
#[derive(Debug, Clone)]
pub struct Config {
    pub cache_dir: String,
    pub db: String,
    pub debug: bool,
    pub content_dir: String,
    pub operating_mode: OperatingMode,
}

impl Config {
    pub fn cache_dir(&self) -> (r: &str)
        ensures
            r@ == self.cache_dir@,
    {
        self.cache_dir.as_str()
    }

    pub fn db(&self) -> (r: &str)
        ensures
            r@ == self.db@,
    {
        self.db.as_str()
    }

    pub fn debug(&self) -> (r: bool)
        ensures
            r == self.debug,
    {
        self.debug
    }

    pub fn content_dir(&self) -> (r: &str)
        ensures
            r@ == self.content_dir@,
    {
        self.content_dir.as_str()
    }

    pub fn operating_mode(&self) -> (r: OperatingMode)
        ensures
            r == self.operating_mode,
    {
        self.operating_mode
    }
}

impl Default for Config {
    fn default() -> (r: Self)
        ensures
            r.cache_dir@ == ".emphasize/cache"@,
            r.db@ == ".emphasize/content.db"@,
            r.debug == false,
            r.content_dir@ == "blog"@,
            r.operating_mode == OperatingMode::ReadWrite,
    {
        Config {
            cache_dir: String::from_str(".emphasize/cache"),
            db: String::from_str(".emphasize/content.db"),
            debug: false,
            content_dir: String::from_str("blog"),
            operating_mode: OperatingMode::ReadWrite,
        }
    }
}

/// A partial configuration: what one source (a file, the environment) supplied.
pub struct ConfigBuilder {
    pub cache_dir: Option<String>,
    pub db: Option<String>,
    pub debug: Option<bool>,
    pub content_dir: Option<String>,
    pub operating_mode: Option<OperatingMode>,
}

/// `b` if set, otherwise `a`.
fn opt_or<T>(a: Option<T>, b: Option<T>) -> (r: Option<T>)
    ensures
        b is Some ==> r == b,
        b is None ==> r == a,
{
    match b {
        Some(x) => Some(x),
        None => a,
    }
}

impl ConfigBuilder {
    /// An empty builder: nothing is set.
    pub fn new() -> (r: Self)
        ensures
            r.cache_dir is None,
            r.db is None,
            r.debug is None,
            r.content_dir is None,
            r.operating_mode is None,
    {
        ConfigBuilder {
            cache_dir: None,
            db: None,
            debug: None,
            content_dir: None,
            operating_mode: None,
        }
    }

    /// Merge two partial configurations, preferring the fields `other` has set.
    pub fn or(self, other: Self) -> (r: Self)
        ensures
            r.cache_dir == if other.cache_dir is Some { other.cache_dir } else { self.cache_dir },
            r.db == if other.db is Some { other.db } else { self.db },
            r.debug == if other.debug is Some { other.debug } else { self.debug },
            r.content_dir == if other.content_dir is Some { other.content_dir } else {
                self.content_dir
            },
            r.operating_mode == if other.operating_mode is Some { other.operating_mode } else {
                self.operating_mode
            },
    {
        ConfigBuilder {
            cache_dir: opt_or(self.cache_dir, other.cache_dir),
            db: opt_or(self.db, other.db),
            debug: opt_or(self.debug, other.debug),
            content_dir: opt_or(self.content_dir, other.content_dir),
            operating_mode: opt_or(self.operating_mode, other.operating_mode),
        }
    }

    /// Resolve the builder, filling every unset field with its default.
    pub fn build_with_defaults(self) -> (r: Config)
        ensures
            self.cache_dir is Some ==> r.cache_dir == self.cache_dir->0,
            self.cache_dir is None ==> r.cache_dir@ == ".emphasize/cache"@,
            self.db is Some ==> r.db == self.db->0,
            self.db is None ==> r.db@ == ".emphasize/content.db"@,
            self.debug is Some ==> r.debug == self.debug->0,
            self.debug is None ==> r.debug == false,
            self.content_dir is Some ==> r.content_dir == self.content_dir->0,
            self.content_dir is None ==> r.content_dir@ == "blog"@,
            self.operating_mode is Some ==> r.operating_mode == self.operating_mode->0,
            self.operating_mode is None ==> r.operating_mode == OperatingMode::ReadWrite,
    {
        let default_config = Config::default();
        Config {
            cache_dir: match self.cache_dir {
                Some(x) => x,
                None => default_config.cache_dir,
            },
            db: match self.db {
                Some(x) => x,
                None => default_config.db,
            },
            debug: match self.debug {
                Some(x) => x,
                None => false,
            },
            content_dir: match self.content_dir {
                Some(x) => x,
                None => default_config.content_dir,
            },
            operating_mode: match self.operating_mode {
                Some(x) => x,
                None => default_config.operating_mode,
            },
        }
    }
}

} // verus!
