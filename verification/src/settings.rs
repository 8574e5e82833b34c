//! Settings: the persisted interface toggles, the monitor's build settings
//! read from environment values, and the paths where files live.
//!
//! Paths are Unix paths held as text; joining follows `PathBuf::push` for a
//! relative component: a separator is put in between unless the base is
//! empty or already ends with one.

use vstd::prelude::*;

use crate::text::{
    append_chars, append_vec, chars_of, eq_ignore_ascii_case, parse_unsigned, parse_unsigned_chars,
    string_of, trim, trim_bounds,
};

verus! {

/// The toggles the interface keeps between runs.
#[derive(Debug, Clone, Copy, PartialEq, Eq, Structural)]
pub struct GuiPersistentSettings {
    pub storage_enabled: bool,
    pub anomaly_enabled: bool,
}

impl Default for GuiPersistentSettings {
    fn default() -> (r: Self)
        ensures
            !r.storage_enabled,
            !r.anomaly_enabled,
    {
        GuiPersistentSettings { storage_enabled: false, anomaly_enabled: false }
    }
}

/// The contents of the settings file.
#[derive(Debug, Clone, Copy, PartialEq, Eq, Structural)]
pub struct SettingsFile {
    pub version: u32,
    pub gui: GuiPersistentSettings,
}

/// The version of the settings file this library writes.
pub fn default_version() -> (r: u32)
    ensures
        r == 1,
{
    1
}

impl Default for SettingsFile {
    fn default() -> (r: Self)
        ensures
            r.version == 1,
            !r.gui.storage_enabled,
            !r.gui.anomaly_enabled,
    {
        SettingsFile { version: default_version(), gui: GuiPersistentSettings::default() }
    }
}

/// `base` joined with the relative component `comp`.
pub open spec fn path_join(base: Seq<char>, comp: Seq<char>) -> Seq<char> {
    if base.len() == 0 || base.last() == '/' {
        base + comp
    } else {
        base + "/"@ + comp
    }
}

/// The configuration directory: `$XDG_CONFIG_HOME`, else `$HOME/.config`, else `.config`.
pub open spec fn config_dir_of(xdg: Option<Seq<char>>, home: Option<Seq<char>>) -> Seq<char> {
    match xdg {
        Some(x) => x,
        None => match home {
            Some(h) => path_join(h, ".config"@),
            None => ".config"@,
        },
    }
}

/// `base` joined with the relative component `comp`.
fn join_path(base: &Vec<char>, comp: &str) -> (r: Vec<char>)
    ensures
        r@ == path_join(base@, comp@),
{
    let mut out: Vec<char> = Vec::new();
    append_vec(&mut out, base);
    if base.len() > 0 && base[base.len() - 1] != '/' {
        out.push('/');
    }
    append_chars(&mut out, comp);
    proof {
        reveal_strlit("/");
        if base@.len() == 0 || base@.last() == '/' {
            assert(out@ =~= base@ + comp@);
        } else {
            assert(out@ =~= base@ + "/"@ + comp@);
        }
    }
    out
}

/// The configuration directory for the values of `XDG_CONFIG_HOME` and `HOME`.
pub fn config_dir(xdg: Option<&str>, home: Option<&str>) -> (r: Vec<char>)
    ensures
        r@ == config_dir_of(
            match xdg {
                Some(x) => Some(x@),
                None => None,
            },
            match home {
                Some(h) => Some(h@),
                None => None,
            },
        ),
{
    match xdg {
        Some(x) => chars_of(x),
        None => match home {
            Some(h) => {
                let hc = chars_of(h);
                join_path(&hc, ".config")
            },
            None => chars_of(".config"),
        },
    }
}

/// The settings file: `system-monitor/settings.toml` in the configuration
/// directory for the values of `XDG_CONFIG_HOME` and `HOME`.
pub fn gui_settings_file_path(xdg: Option<&str>, home: Option<&str>) -> (r: String)
    ensures
        r@ == path_join(
            path_join(
                config_dir_of(
                    match xdg {
                        Some(x) => Some(x@),
                        None => None,
                    },
                    match home {
                        Some(h) => Some(h@),
                        None => None,
                    },
                ),
                "system-monitor"@,
            ),
            "settings.toml"@,
        ),
{
    let dir = config_dir(xdg, home);
    let app = join_path(&dir, "system-monitor");
    let file = join_path(&app, "settings.toml");
    string_of(&file)
}

/// The history database: `$HOME/.system-monitor/history.db`, or relative to
/// the working directory without `HOME`.
pub open spec fn storage_db_path_of(home: Option<Seq<char>>) -> Seq<char> {
    match home {
        Some(h) => path_join(path_join(h, ".system-monitor"@), "history.db"@),
        None => path_join(".system-monitor"@, "history.db"@),
    }
}

/// The default history database for the value of `HOME`.
pub fn default_storage_db_path(home: Option<&str>) -> (r: String)
    ensures
        r@ == storage_db_path_of(
            match home {
                Some(h) => Some(h@),
                None => None,
            },
        ),
{
    let base = match home {
        Some(h) => {
            let hc = chars_of(h);
            join_path(&hc, ".system-monitor")
        },
        None => chars_of(".system-monitor"),
    };
    let p = join_path(&base, "history.db");
    string_of(&p)
}

/// The default model file, relative to the working directory.
pub fn default_model_path() -> (r: String)
    ensures
        r@ == "leak_model.json"@,
{
    String::from_str("leak_model.json")
}

/// An environment flag is set when its value, trimmed, is `true` in any case.
pub open spec fn flag_value(v: Option<Seq<char>>) -> bool {
    match v {
        Some(t) => eq_ignore_ascii_case(trim(t), "true"@),
        None => false,
    }
}

/// A count from an environment value: the trimmed value read as an
/// unsigned integer, `None` when absent or unreadable.
pub open spec fn count_value(v: Option<Seq<char>>) -> Option<nat> {
    match v {
        Some(t) => match parse_unsigned(trim(t), usize::MAX as nat) {
            Ok(n) => Some(n),
            Err(_) => None,
        },
        None => None,
    }
}

/// Whether an environment value, trimmed, is `true` in any case.
pub fn parse_bool_env(value: Option<&str>) -> (r: bool)
    ensures
        r == flag_value(
            match value {
                Some(t) => Some(t@),
                None => None,
            },
        ),
{
    let t = match value {
        Some(t) => t,
        None => {
            return false;
        },
    };
    let v = chars_of(t);
    let (a, b) = trim_bounds(&v);
    let w = chars_of("true");
    if b - a != w.len() {
        return false;
    }
    let mut i: usize = 0;
    while i < w.len()
        invariant
            value == Some(t),
            v@ == t@,
            v@.subrange(a as int, b as int) == trim(t@),
            a <= b <= v.len(),
            b - a == w.len(),
            w@ == "true"@,
            i <= w.len(),
            forall|j: int|
                0 <= j < i ==> crate::text::ascii_lower(v@.subrange(a as int, b as int)[j])
                    == crate::text::ascii_lower(w@[j]),
        decreases w.len() - i,
    {
        let c = v[a + i];
        let lc: u32 = if 'A' <= c && c <= 'Z' {
            (c as u32) + 32
        } else {
            c as u32
        };
        let d = w[i];
        let ld: u32 = if 'A' <= d && d <= 'Z' {
            (d as u32) + 32
        } else {
            d as u32
        };
        assert(v@.subrange(a as int, b as int)[i as int] == c);
        assert(crate::text::ascii_lower(c) as u32 == lc);
        assert(crate::text::ascii_lower(d) as u32 == ld);
        if lc != ld {
            return false;
        }
        i = i + 1;
    }
    true
}

/// The trimmed environment value read as an unsigned integer.
pub fn parse_usize_env(value: Option<&str>) -> (r: Option<usize>)
    ensures
        match r {
            Some(n) => count_value(
                match value {
                    Some(t) => Some(t@),
                    None => None,
                },
            ) == Some(n as nat),
            None => count_value(
                match value {
                    Some(t) => Some(t@),
                    None => None,
                },
            ) is None,
        },
{
    let t = match value {
        Some(t) => t,
        None => {
            return None;
        },
    };
    let v = chars_of(t);
    let (a, b) = trim_bounds(&v);
    let mut w: Vec<char> = Vec::new();
    let mut i: usize = a;
    while i < b
        invariant
            a <= i <= b <= v.len(),
            w@ == v@.subrange(a as int, i as int),
        decreases b - i,
    {
        w.push(v[i]);
        i = i + 1;
        assert(w@ =~= v@.subrange(a as int, i as int));
    }
    match parse_unsigned_chars(&w, usize::MAX as u64) {
        Ok(n) => Some(n as usize),
        Err(_) => None,
    }
}

/// The window length the leak detector uses when none is configured.
pub const DEFAULT_ANOMALY_WINDOW: usize = 24;

/// How the monitor is put together.
#[derive(Debug, Clone)]
pub struct MonitorBuildSettings {
    pub storage_enabled: bool,
    pub anomaly_enabled: bool,
    pub storage_db_path: String,
    pub anomaly_model_path: String,
    pub anomaly_window_size: usize,
}

/// The parts of the monitor to build for given settings.
#[derive(Debug, Clone, Copy, PartialEq, Eq, Structural)]
pub struct MonitorPlan {
    /// The leak detector is loaded from the model file.
    pub load_detector: bool,
    /// Samples are accumulated and written to the history database.
    pub with_storage: bool,
    /// Storage is on only because anomaly detection needs it.
    pub storage_implied: bool,
}

impl MonitorBuildSettings {
    /// Reads the settings from the values of `SM_ENABLE_STORAGE`,
    /// `SM_ENABLE_ANOMALY`, `SM_STORAGE_DB_PATH`, `SM_MODEL_PATH`,
    /// `SM_ANOMALY_WINDOW` and `HOME`, with a default for each one absent.
    pub fn from_env_values(
        enable_storage: Option<&str>,
        enable_anomaly: Option<&str>,
        storage_db_path: Option<String>,
        model_path: Option<String>,
        anomaly_window: Option<&str>,
        home: Option<&str>,
    ) -> (r: Self)
        ensures
            r.storage_enabled == flag_value(
                match enable_storage {
                    Some(t) => Some(t@),
                    None => None,
                },
            ),
            r.anomaly_enabled == flag_value(
                match enable_anomaly {
                    Some(t) => Some(t@),
                    None => None,
                },
            ),
            r.storage_db_path@ == match storage_db_path {
                Some(p) => p@,
                None => storage_db_path_of(
                    match home {
                        Some(h) => Some(h@),
                        None => None,
                    },
                ),
            },
            r.anomaly_model_path@ == match model_path {
                Some(p) => p@,
                None => "leak_model.json"@,
            },
            r.anomaly_window_size as nat == match count_value(
                match anomaly_window {
                    Some(t) => Some(t@),
                    None => None,
                },
            ) {
                Some(n) => n,
                None => DEFAULT_ANOMALY_WINDOW as nat,
            },
    {
        let storage_enabled = parse_bool_env(enable_storage);
        let anomaly_enabled = parse_bool_env(enable_anomaly);
        let storage_db_path = match storage_db_path {
            Some(p) => p,
            None => default_storage_db_path(home),
        };
        let anomaly_model_path = match model_path {
            Some(p) => p,
            None => default_model_path(),
        };
        let anomaly_window_size = match parse_usize_env(anomaly_window) {
            Some(n) => n,
            None => DEFAULT_ANOMALY_WINDOW,
        };
        MonitorBuildSettings {
            storage_enabled,
            anomaly_enabled,
            storage_db_path,
            anomaly_model_path,
            anomaly_window_size,
        }
    }

    /// Storage runs when it is asked for or when anomaly detection needs it.
    pub fn effective_storage_enabled(&self) -> (r: bool)
        ensures
            r == (self.storage_enabled || self.anomaly_enabled),
    {
        self.storage_enabled || self.anomaly_enabled
    }

    /// The same settings with the two toggles replaced.
    pub fn with_toggles(self, storage_enabled: bool, anomaly_enabled: bool) -> (r: Self)
        ensures
            r.storage_enabled == storage_enabled,
            r.anomaly_enabled == anomaly_enabled,
            r.storage_db_path == self.storage_db_path,
            r.anomaly_model_path == self.anomaly_model_path,
            r.anomaly_window_size == self.anomaly_window_size,
    {
        let mut s = self;
        s.storage_enabled = storage_enabled;
        s.anomaly_enabled = anomaly_enabled;
        s
    }

    /// What to build: the detector when anomaly detection is on, storage
    /// when it is effectively on, and whether anomaly detection alone
    /// turned storage on.
    pub fn plan(&self) -> (r: MonitorPlan)
        ensures
            r.load_detector == self.anomaly_enabled,
            r.with_storage == (self.storage_enabled || self.anomaly_enabled),
            r.storage_implied == (self.anomaly_enabled && !self.storage_enabled),
    {
        MonitorPlan {
            load_detector: self.anomaly_enabled,
            with_storage: self.effective_storage_enabled(),
            storage_implied: self.anomaly_enabled && !self.storage_enabled,
        }
    }
}

} // verus!
