use vstd::prelude::*;

verus! {

/// Whether a scan computes the byte size of each project.
#[derive(Debug, Clone, Copy, PartialEq, Eq, Structural)]
pub enum SizeMode {
    ExactCached,
    Skip,
}

/// Version-control settings.
#[derive(Debug, Clone, Copy, PartialEq, Eq, Structural)]
pub struct GitConfig {
    pub use_cli_fallback: bool,
}

/// Process-wide settings of a scan.
#[derive(Debug, Clone)]
pub struct AppConfig {
    pub roots: Vec<String>,
    pub global_ignores: Vec<String>,
    pub size_mode: SizeMode,
    pub concurrency: usize,
    pub git: GitConfig,
}

/// Why a settings location could not be resolved.
#[derive(Debug, Clone, Copy, PartialEq, Eq, Structural)]
pub enum ConfigError {
    /// The platform gives no per-user directories for the application.
    NoProjectDirs,
}

/// The directory names that every scan skips by default.
pub open spec fn default_ignores() -> Seq<Seq<char>> {
    seq![
        ".git"@,
        "node_modules"@,
        "target"@,
        "build"@,
        "dist"@,
        ".venv"@,
        "Pods"@,
        "DerivedData"@,
        ".cache"@,
    ]
}

pub open spec fn views_of(v: Seq<String>) -> Seq<Seq<char>> {
    v.map_values(|s: String| s@)
}

/// `s` ends with `t`.
pub open spec fn ends_with(s: Seq<char>, t: Seq<char>) -> bool {
    s.len() >= t.len() && s.subrange(s.len() - t.len(), s.len() as int) == t
}

/// Relies on shellexpand::tilde: an input that does not start with `~` comes
/// back unchanged; one that does comes back with the leading `~` (when
/// followed by `/` or nothing) replaced by the home directory, else unchanged,
/// so in every case it ends with what followed the `~`.
#[verifier::external_body]
fn expand_tilde(s: &str) -> (r: String)
    ensures
        (s@.len() == 0 || s@[0] != '~') ==> r@ == s@,
        (s@.len() > 0 && s@[0] == '~') ==> ends_with(r@, s@.drop_first()),
{
    shellexpand::tilde(s).into_owned()
}

/// Relies on directories::ProjectDirs::from and its config_dir: the per-user
/// configuration directory of the application, if the platform has one.
#[verifier::external_body]
fn project_config_dir(qualifier: &str, organization: &str, application: &str) -> (r: Option<
    String,
>) {
    directories::ProjectDirs::from(qualifier, organization, application).map(
        |d| d.config_dir().to_string_lossy().into_owned(),
    )
}

/// Relies on directories::ProjectDirs::from and its data_dir: the per-user
/// data directory of the application, if the platform has one.
#[verifier::external_body]
fn project_data_dir(qualifier: &str, organization: &str, application: &str) -> (r: Option<String>) {
    directories::ProjectDirs::from(qualifier, organization, application).map(
        |d| d.data_dir().to_string_lossy().into_owned(),
    )
}

/// Relies on dirs_next::home_dir: the user's home directory, if known.
#[verifier::external_body]
fn home_dir() -> (r: Option<String>) {
    dirs_next::home_dir().map(|p| p.to_string_lossy().into_owned())
}

/// `base` joined with the relative component `name`.
pub open spec fn join_spec(base: Seq<char>, name: Seq<char>) -> Seq<char> {
    if base.len() == 0 {
        name
    } else if base.last() == '/' {
        base + name
    } else {
        base + "/"@ + name
    }
}

/// Joins a relative component onto a directory path.
pub fn join_path(base: &str, name: &str) -> (r: String)
    ensures
        r@ == join_spec(base@, name@),
{
    let n = base.unicode_len();
    if n == 0 {
        return name.to_string();
    }
    let mut r = base.to_string();
    if base.get_char(n - 1) != '/' {
        r.append("/");
    }
    r.append(name);
    r
}

impl Default for AppConfig {
    fn default() -> (r: AppConfig)
        ensures
            r.roots@.len() == 1,
            ends_with(r.roots@[0]@, "/Code"@),
            views_of(r.global_ignores@) == default_ignores(),
            r.size_mode == SizeMode::ExactCached,
            r.concurrency == 8,
            r.git.use_cli_fallback == false,
    {
        let root = expand_tilde("~/Code");
        proof {
            reveal_strlit("~/Code");
            reveal_strlit("/Code");
            assert("~/Code"@.drop_first() =~= "/Code"@);
        }
        let global_ignores = vec![
            ".git".to_string(),
            "node_modules".to_string(),
            "target".to_string(),
            "build".to_string(),
            "dist".to_string(),
            ".venv".to_string(),
            "Pods".to_string(),
            "DerivedData".to_string(),
            ".cache".to_string(),
        ];
        assert(views_of(global_ignores@) =~= default_ignores());
        AppConfig {
            roots: vec![root],
            global_ignores,
            size_mode: SizeMode::ExactCached,
            concurrency: 8,
            git: GitConfig { use_cli_fallback: false },
        }
    }
}

/// Locations of the settings and catalog files.
pub struct ConfigStore;

impl ConfigStore {
    /// The per-user configuration directory.
    pub fn config_dir() -> (r: Result<String, ConfigError>)
        ensures
            r is Err ==> r == Err::<String, ConfigError>(ConfigError::NoProjectDirs),
    {
        match project_config_dir("com.projectbrowser", "Local", "ProjectBrowser") {
            Some(d) => Ok(d),
            None => Err(ConfigError::NoProjectDirs),
        }
    }

    /// The per-user data directory, where the catalog lives.
    pub fn data_dir() -> (r: Result<String, ConfigError>)
        ensures
            r is Err ==> r == Err::<String, ConfigError>(ConfigError::NoProjectDirs),
    {
        match project_data_dir("com.projectbrowser", "Local", "ProjectBrowser") {
            Some(d) => Ok(d),
            None => Err(ConfigError::NoProjectDirs),
        }
    }

    /// The settings file: `config.json` in the configuration directory.
    pub fn config_path() -> (r: Result<String, ConfigError>)
        ensures
            match r {
                Ok(p) => exists|d: Seq<char>| p@ == join_spec(d, "config.json"@),
                Err(e) => e == ConfigError::NoProjectDirs,
            },
    {
        let d = Self::config_dir()?;
        Ok(join_path(d.as_str(), "config.json"))
    }

    /// The application-level ignore file, next to the settings file.
    pub fn app_ignore_path() -> (r: Result<String, ConfigError>)
        ensures
            match r {
                Ok(p) => exists|d: Seq<char>| p@ == join_spec(d, "ignore"@),
                Err(e) => e == ConfigError::NoProjectDirs,
            },
    {
        let d = Self::config_dir()?;
        Ok(join_path(d.as_str(), "ignore"))
    }

    /// The catalog file: `projects.sqlite` in the data directory.
    pub fn catalog_path() -> (r: Result<String, ConfigError>)
        ensures
            match r {
                Ok(p) => exists|d: Seq<char>| p@ == join_spec(d, "projects.sqlite"@),
                Err(e) => e == ConfigError::NoProjectDirs,
            },
    {
        let d = Self::data_dir()?;
        Ok(join_path(d.as_str(), "projects.sqlite"))
    }

    /// The legacy ignore file `.config/project-browser/ignore` under the home
    /// directory, or under `~` when the home directory is unknown.
    pub fn user_ignore_path_legacy() -> (r: String)
        ensures
            exists|h: Seq<char>|
                r@ == join_spec(
                    join_spec(join_spec(h, ".config"@), "project-browser"@),
                    "ignore"@,
                ),
    {
        let home = match home_dir() {
            Some(h) => h,
            None => "~".to_string(),
        };
        let a = join_path(home.as_str(), ".config");
        let b = join_path(a.as_str(), "project-browser");
        join_path(b.as_str(), "ignore")
    }
}

} // verus!
