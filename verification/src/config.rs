//! The settings of a run: reading them, and deciding which paths they mean.
//!
//! Joining paths, and telling absolute ones from relative ones, depends on the platform and is done
//! outside of this library, which takes the outcome.

use crate::text;
use crate::text::Blank;
use vstd::prelude::*;

verus! {

/// The most characters that a settings file may have.
pub const MAX_SETTINGS_CHARS: usize = 0x7FFF_0000;

/// The value that `configparser` finds under a key of a section in the text of a settings file, or
/// its message where it cannot read that text.
pub uninterp spec fn ini_value(content: Seq<char>, section: Seq<char>, key: Seq<char>) -> Result<
    Option<Seq<char>>,
    Seq<char>,
>;

/// The view of an outcome of looking up a value.
pub open spec fn outcome_view(r: Result<Option<String>, String>) -> Result<
    Option<Seq<char>>,
    Seq<char>,
> {
    match r {
        Ok(value) => Ok(text::opt(value)),
        Err(message) => Err(message@),
    }
}

/// Calls `Ini::read` of `configparser` on the text of a settings file, then `Ini::get` for a key of
/// a section. The outcome depends on the three texts alone; `read` counts lines in an `i32`.
#[verifier::external_body]
fn look_up_ini(content: &str, section: &str, key: &str) -> (r: Result<Option<String>, String>)
    requires
        content@.len() <= MAX_SETTINGS_CHARS,
    ensures
        outcome_view(r) == ini_value(content@, section@, key@),
{
    let mut ini = configparser::ini::Ini::new();
    ini.read(content.to_string())?;
    Ok(ini.get(section, key))
}

/// What a settings file says, key by key.
#[verifier::ext_equal]
pub struct RawSettings<T = String> {
    pub xplane_path: Option<T>,
    pub naip_path: Option<T>,
    pub db_output_path: Option<T>,
    pub master_ndb_path: Option<T>,
    pub cifp_path: Option<T>,
    pub path_to_fix_dat: Option<T>,
    pub path_to_nav_dat: Option<T>,
    pub path_to_rwy_direction_csv: Option<T>,
    pub path_to_rwy_csv: Option<T>,
    pub path_to_ad_hp_csv: Option<T>,
    pub path_to_rte_seg_csv: Option<T>,
    pub path_to_vor_csv: Option<T>,
    pub path_to_ndb_csv: Option<T>,
}

impl View for RawSettings {
    type V = RawSettings<Seq<char>>;

    open spec fn view(&self) -> Self::V {
        RawSettings {
            xplane_path: text::opt(self.xplane_path),
            naip_path: text::opt(self.naip_path),
            db_output_path: text::opt(self.db_output_path),
            master_ndb_path: text::opt(self.master_ndb_path),
            cifp_path: text::opt(self.cifp_path),
            path_to_fix_dat: text::opt(self.path_to_fix_dat),
            path_to_nav_dat: text::opt(self.path_to_nav_dat),
            path_to_rwy_direction_csv: text::opt(self.path_to_rwy_direction_csv),
            path_to_rwy_csv: text::opt(self.path_to_rwy_csv),
            path_to_ad_hp_csv: text::opt(self.path_to_ad_hp_csv),
            path_to_rte_seg_csv: text::opt(self.path_to_rte_seg_csv),
            path_to_vor_csv: text::opt(self.path_to_vor_csv),
            path_to_ndb_csv: text::opt(self.path_to_ndb_csv),
        }
    }
}

/// The value under a key of the section for paths, where the file can be read.
pub open spec fn path_value(content: Seq<char>, key: Seq<char>) -> Option<Seq<char>> {
    match ini_value(content, "paths"@, key) {
        Ok(value) => value,
        Err(_) => None,
    }
}

/// What the text of a settings file says.
pub open spec fn raw_settings(content: Seq<char>) -> RawSettings<Seq<char>> {
    RawSettings {
        xplane_path: path_value(content, "XPLANE_PATH"@),
        naip_path: path_value(content, "NAIP_PATH"@),
        db_output_path: path_value(content, "DB_OUTPUT_PATH"@),
        master_ndb_path: path_value(content, "MASTER_NDB_PATH"@),
        cifp_path: path_value(content, "CIFP_PATH"@),
        path_to_fix_dat: path_value(content, "PATH_TO_FIX_DAT"@),
        path_to_nav_dat: path_value(content, "PATH_TO_NAV_DAT"@),
        path_to_rwy_direction_csv: path_value(content, "PATH_TO_RWY_DIRECTION_CSV"@),
        path_to_rwy_csv: path_value(content, "PATH_TO_RWY_CSV"@),
        path_to_ad_hp_csv: path_value(content, "PATH_TO_AD_HP_CSV"@),
        path_to_rte_seg_csv: path_value(content, "PATH_TO_RTE_SEG_CSV"@),
        path_to_vor_csv: path_value(content, "PATH_TO_VOR_CSV"@),
        path_to_ndb_csv: path_value(content, "PATH_TO_NDB_CSV"@),
    }
}

/// Why the text of a settings file cannot be read, if it cannot: the first message that the lookup
/// of a setting brings.
pub open spec fn unreadable(content: Seq<char>) -> Option<Seq<char>> {
    if ini_value(content, "paths"@, "XPLANE_PATH"@) is Err {
        Some(ini_value(content, "paths"@, "XPLANE_PATH"@)->Err_0)
    } else if ini_value(content, "paths"@, "NAIP_PATH"@) is Err {
        Some(ini_value(content, "paths"@, "NAIP_PATH"@)->Err_0)
    } else if ini_value(content, "paths"@, "DB_OUTPUT_PATH"@) is Err {
        Some(ini_value(content, "paths"@, "DB_OUTPUT_PATH"@)->Err_0)
    } else if ini_value(content, "paths"@, "MASTER_NDB_PATH"@) is Err {
        Some(ini_value(content, "paths"@, "MASTER_NDB_PATH"@)->Err_0)
    } else if ini_value(content, "paths"@, "CIFP_PATH"@) is Err {
        Some(ini_value(content, "paths"@, "CIFP_PATH"@)->Err_0)
    } else if ini_value(content, "paths"@, "PATH_TO_FIX_DAT"@) is Err {
        Some(ini_value(content, "paths"@, "PATH_TO_FIX_DAT"@)->Err_0)
    } else if ini_value(content, "paths"@, "PATH_TO_NAV_DAT"@) is Err {
        Some(ini_value(content, "paths"@, "PATH_TO_NAV_DAT"@)->Err_0)
    } else if ini_value(content, "paths"@, "PATH_TO_RWY_DIRECTION_CSV"@) is Err {
        Some(ini_value(content, "paths"@, "PATH_TO_RWY_DIRECTION_CSV"@)->Err_0)
    } else if ini_value(content, "paths"@, "PATH_TO_RWY_CSV"@) is Err {
        Some(ini_value(content, "paths"@, "PATH_TO_RWY_CSV"@)->Err_0)
    } else if ini_value(content, "paths"@, "PATH_TO_AD_HP_CSV"@) is Err {
        Some(ini_value(content, "paths"@, "PATH_TO_AD_HP_CSV"@)->Err_0)
    } else if ini_value(content, "paths"@, "PATH_TO_RTE_SEG_CSV"@) is Err {
        Some(ini_value(content, "paths"@, "PATH_TO_RTE_SEG_CSV"@)->Err_0)
    } else if ini_value(content, "paths"@, "PATH_TO_VOR_CSV"@) is Err {
        Some(ini_value(content, "paths"@, "PATH_TO_VOR_CSV"@)->Err_0)
    } else if ini_value(content, "paths"@, "PATH_TO_NDB_CSV"@) is Err {
        Some(ini_value(content, "paths"@, "PATH_TO_NDB_CSV"@)->Err_0)
    } else {
        None
    }
}

/// Reads the text of a settings file. Where it cannot be read, the message tells why.
pub fn read_settings(content: &str) -> (r: Result<RawSettings, String>)
    requires
        content@.len() <= MAX_SETTINGS_CHARS,
    ensures
        match r {
            Ok(raw) => unreadable(content@) is None && raw@ == raw_settings(content@),
            Err(message) => unreadable(content@) == Some(message@),
        },
{
    let xplane_path: Option<String> = match look_up_ini(content, "paths", "XPLANE_PATH") {
        Ok(value) => value,
        Err(message) => return Err(message),
    };
    let naip_path: Option<String> = match look_up_ini(content, "paths", "NAIP_PATH") {
        Ok(value) => value,
        Err(message) => return Err(message),
    };
    let db_output_path: Option<String> = match look_up_ini(content, "paths", "DB_OUTPUT_PATH") {
        Ok(value) => value,
        Err(message) => return Err(message),
    };
    let master_ndb_path: Option<String> = match look_up_ini(content, "paths", "MASTER_NDB_PATH") {
        Ok(value) => value,
        Err(message) => return Err(message),
    };
    let cifp_path: Option<String> = match look_up_ini(content, "paths", "CIFP_PATH") {
        Ok(value) => value,
        Err(message) => return Err(message),
    };
    let path_to_fix_dat: Option<String> = match look_up_ini(content, "paths", "PATH_TO_FIX_DAT") {
        Ok(value) => value,
        Err(message) => return Err(message),
    };
    let path_to_nav_dat: Option<String> = match look_up_ini(content, "paths", "PATH_TO_NAV_DAT") {
        Ok(value) => value,
        Err(message) => return Err(message),
    };
    let path_to_rwy_direction_csv: Option<String> = match look_up_ini(content, "paths", "PATH_TO_RWY_DIRECTION_CSV") {
        Ok(value) => value,
        Err(message) => return Err(message),
    };
    let path_to_rwy_csv: Option<String> = match look_up_ini(content, "paths", "PATH_TO_RWY_CSV") {
        Ok(value) => value,
        Err(message) => return Err(message),
    };
    let path_to_ad_hp_csv: Option<String> = match look_up_ini(content, "paths", "PATH_TO_AD_HP_CSV") {
        Ok(value) => value,
        Err(message) => return Err(message),
    };
    let path_to_rte_seg_csv: Option<String> = match look_up_ini(content, "paths", "PATH_TO_RTE_SEG_CSV") {
        Ok(value) => value,
        Err(message) => return Err(message),
    };
    let path_to_vor_csv: Option<String> = match look_up_ini(content, "paths", "PATH_TO_VOR_CSV") {
        Ok(value) => value,
        Err(message) => return Err(message),
    };
    let path_to_ndb_csv: Option<String> = match look_up_ini(content, "paths", "PATH_TO_NDB_CSV") {
        Ok(value) => value,
        Err(message) => return Err(message),
    };
    Ok(
        RawSettings {
            xplane_path,
            naip_path,
            db_output_path,
            master_ndb_path,
            cifp_path,
            path_to_fix_dat,
            path_to_nav_dat,
            path_to_rwy_direction_csv,
            path_to_rwy_csv,
            path_to_ad_hp_csv,
            path_to_rte_seg_csv,
            path_to_vor_csv,
            path_to_ndb_csv,
        },
    )
}

/// A setting that is missing, by its key.
#[derive(Debug)]
pub struct MissingKey {
    pub key: String,
}

/// The settings as they are meant: what is required is there, without surrounding blanks. An
/// optional path that is blank counts as none; another stands as it is.
#[verifier::ext_equal]
pub struct Settings<T = String> {
    pub xplane_path: T,
    pub naip_path: T,
    pub db_output_path: T,
    pub master_ndb_path: T,
    pub cifp_path: T,
    pub path_to_fix_dat: T,
    pub path_to_nav_dat: T,
    pub path_to_rwy_direction_csv: Option<T>,
    pub path_to_rwy_csv: Option<T>,
    pub path_to_ad_hp_csv: Option<T>,
    pub path_to_rte_seg_csv: Option<T>,
    pub path_to_vor_csv: Option<T>,
    pub path_to_ndb_csv: Option<T>,
}

impl View for Settings {
    type V = Settings<Seq<char>>;

    open spec fn view(&self) -> Self::V {
        Settings {
            xplane_path: self.xplane_path@,
            naip_path: self.naip_path@,
            db_output_path: self.db_output_path@,
            master_ndb_path: self.master_ndb_path@,
            cifp_path: self.cifp_path@,
            path_to_fix_dat: self.path_to_fix_dat@,
            path_to_nav_dat: self.path_to_nav_dat@,
            path_to_rwy_direction_csv: text::opt(self.path_to_rwy_direction_csv),
            path_to_rwy_csv: text::opt(self.path_to_rwy_csv),
            path_to_ad_hp_csv: text::opt(self.path_to_ad_hp_csv),
            path_to_rte_seg_csv: text::opt(self.path_to_rte_seg_csv),
            path_to_vor_csv: text::opt(self.path_to_vor_csv),
            path_to_ndb_csv: text::opt(self.path_to_ndb_csv),
        }
    }
}

/// A value without surrounding blanks, empty where there is none.
pub open spec fn trimmed_or_empty(value: Option<Seq<char>>) -> Seq<char> {
    match value {
        Some(found) => text::trim(Blank::Unicode, found),
        None => seq![],
    }
}

/// Reads a required value.
pub fn required_value(value: &Option<String>) -> (r: Option<String>)
    ensures
        match r {
            Some(found) => found@ == trimmed_or_empty(text::opt(*value)) && found@.len() > 0,
            None => trimmed_or_empty(text::opt(*value)).len() == 0,
        },
{
    match value {
        Some(raw) => {
            let found: String = text::trimmed(Blank::Unicode, raw.as_str());
            if text::is_empty(found.as_str()) {
                None
            } else {
                Some(found)
            }
        },
        None => None,
    }
}

/// A value that is not blank.
pub open spec fn unless_blank(value: Option<Seq<char>>) -> Option<Seq<char>> {
    if trimmed_or_empty(value).len() > 0 {
        value
    } else {
        None
    }
}

fn copy_unless_blank(value: &Option<String>) -> (r: Option<String>)
    ensures
        text::opt(r) == unless_blank(text::opt(*value)),
{
    match required_value(value) {
        Some(_) => text::copy_opt(value),
        None => None,
    }
}

/// The value, or the empty text where there is none.
pub open spec fn or_empty(value: Option<Seq<char>>) -> Seq<char> {
    match value {
        Some(found) => found,
        None => ""@,
    }
}

/// The settings that are meant.
pub open spec fn meant_settings(raw: RawSettings<Seq<char>>) -> Settings<Seq<char>> {
    Settings {
        xplane_path: or_empty(raw.xplane_path),
        naip_path: trimmed_or_empty(raw.naip_path),
        db_output_path: trimmed_or_empty(raw.db_output_path),
        master_ndb_path: trimmed_or_empty(raw.master_ndb_path),
        cifp_path: trimmed_or_empty(raw.cifp_path),
        path_to_fix_dat: trimmed_or_empty(raw.path_to_fix_dat),
        path_to_nav_dat: trimmed_or_empty(raw.path_to_nav_dat),
        path_to_rwy_direction_csv: unless_blank(raw.path_to_rwy_direction_csv),
        path_to_rwy_csv: unless_blank(raw.path_to_rwy_csv),
        path_to_ad_hp_csv: unless_blank(raw.path_to_ad_hp_csv),
        path_to_rte_seg_csv: unless_blank(raw.path_to_rte_seg_csv),
        path_to_vor_csv: unless_blank(raw.path_to_vor_csv),
        path_to_ndb_csv: unless_blank(raw.path_to_ndb_csv),
    }
}

/// The first required setting that is missing.
pub open spec fn first_missing(raw: RawSettings<Seq<char>>) -> Option<Seq<char>> {
    if trimmed_or_empty(raw.naip_path).len() == 0 {
        Some("NAIP_PATH"@)
    } else if trimmed_or_empty(raw.db_output_path).len() == 0 {
        Some("DB_OUTPUT_PATH"@)
    } else if trimmed_or_empty(raw.master_ndb_path).len() == 0 {
        Some("MASTER_NDB_PATH"@)
    } else if trimmed_or_empty(raw.cifp_path).len() == 0 {
        Some("CIFP_PATH"@)
    } else if trimmed_or_empty(raw.path_to_fix_dat).len() == 0 {
        Some("PATH_TO_FIX_DAT"@)
    } else if trimmed_or_empty(raw.path_to_nav_dat).len() == 0 {
        Some("PATH_TO_NAV_DAT"@)
    } else {
        None
    }
}

/// Takes over the settings of a file. The first required one that is missing is named.
pub fn load_config(raw: &RawSettings) -> (r: Result<Settings, MissingKey>)
    ensures
        match r {
            Ok(settings) => first_missing(raw@) is None && settings@ == meant_settings(raw@),
            Err(missing) => first_missing(raw@) == Some(missing.key@),
        },
{
    let naip_path: String = match required_value(&raw.naip_path) {
        Some(value) => value,
        None => return Err(MissingKey { key: text::copy("NAIP_PATH") }),
    };
    let db_output_path: String = match required_value(&raw.db_output_path) {
        Some(value) => value,
        None => return Err(MissingKey { key: text::copy("DB_OUTPUT_PATH") }),
    };
    let master_ndb_path: String = match required_value(&raw.master_ndb_path) {
        Some(value) => value,
        None => return Err(MissingKey { key: text::copy("MASTER_NDB_PATH") }),
    };
    let cifp_path: String = match required_value(&raw.cifp_path) {
        Some(value) => value,
        None => return Err(MissingKey { key: text::copy("CIFP_PATH") }),
    };
    let path_to_fix_dat: String = match required_value(&raw.path_to_fix_dat) {
        Some(value) => value,
        None => return Err(MissingKey { key: text::copy("PATH_TO_FIX_DAT") }),
    };
    let path_to_nav_dat: String = match required_value(&raw.path_to_nav_dat) {
        Some(value) => value,
        None => return Err(MissingKey { key: text::copy("PATH_TO_NAV_DAT") }),
    };
    let xplane_path: String = match &raw.xplane_path {
        Some(value) => value.clone(),
        None => text::copy(""),
    };
    Ok(
        Settings {
            xplane_path,
            naip_path,
            db_output_path,
            master_ndb_path,
            cifp_path,
            path_to_fix_dat,
            path_to_nav_dat,
            path_to_rwy_direction_csv: copy_unless_blank(&raw.path_to_rwy_direction_csv),
            path_to_rwy_csv: copy_unless_blank(&raw.path_to_rwy_csv),
            path_to_ad_hp_csv: copy_unless_blank(&raw.path_to_ad_hp_csv),
            path_to_rte_seg_csv: copy_unless_blank(&raw.path_to_rte_seg_csv),
            path_to_vor_csv: copy_unless_blank(&raw.path_to_vor_csv),
            path_to_ndb_csv: copy_unless_blank(&raw.path_to_ndb_csv),
        },
    )
}

/// A path that may be relative to a base: it stands as it is where it is absolute, where it may not
/// be relative, or where there is no base; else it is joined to the base.
pub open spec fn configured_path(
    base: Seq<char>,
    value: Seq<char>,
    allow_relative: bool,
    absolute: bool,
    joined: Seq<char>,
) -> Seq<char> {
    if absolute || !allow_relative || text::trim(Blank::Unicode, base).len() == 0 {
        value
    } else {
        joined
    }
}

/// Chooses a path that may be relative to a base, given whether it is absolute and what it is when
/// joined to the base.
pub fn resolve_configured_path(
    base: &str,
    value: &str,
    allow_relative: bool,
    absolute: bool,
    joined: &str,
) -> (r: String)
    ensures
        r@ == configured_path(base@, value@, allow_relative, absolute, joined@),
{
    let trimmed: String = text::trimmed(Blank::Unicode, base);
    if absolute || !allow_relative || text::is_empty(trimmed.as_str()) {
        text::copy(value)
    } else {
        text::copy(joined)
    }
}

/// A configured path, or the default in its place.
pub open spec fn path_or_default(configured: Option<Seq<char>>, default: Seq<char>) -> Seq<char> {
    match configured {
        Some(path) => path,
        None => default,
    }
}

/// An optional path, or the default in its place.
pub fn optional_or_default(configured: &Option<String>, default: &str) -> (r: String)
    ensures
        r@ == path_or_default(text::opt(*configured), default@),
{
    match configured {
        Some(path) => path.clone(),
        None => text::copy(default),
    }
}

/// The names of the files that optional paths lead to by default.
#[derive(Clone, Copy, PartialEq, Eq, Debug, Structural)]
pub enum DefaultFile {
    RunwayDirections,
    Runways,
    Airports,
    RouteSegments,
    Vors,
    Ndbs,
}

/// The name of a default file.
pub open spec fn default_name(file: DefaultFile) -> Seq<char> {
    match file {
        DefaultFile::RunwayDirections => "RWY_DIRECTION.csv"@,
        DefaultFile::Runways => "RWY.csv"@,
        DefaultFile::Airports => "AD_HP.csv"@,
        DefaultFile::RouteSegments => "RTE_SEG.csv"@,
        DefaultFile::Vors => "VOR.csv"@,
        DefaultFile::Ndbs => "NDB.csv"@,
    }
}

/// The name of a default file.
pub fn default_file_name(file: DefaultFile) -> (r: &'static str)
    ensures
        r@ == default_name(file),
{
    match file {
        DefaultFile::RunwayDirections => "RWY_DIRECTION.csv",
        DefaultFile::Runways => "RWY.csv",
        DefaultFile::Airports => "AD_HP.csv",
        DefaultFile::RouteSegments => "RTE_SEG.csv",
        DefaultFile::Vors => "VOR.csv",
        DefaultFile::Ndbs => "NDB.csv",
    }
}

/// The paths of a run.
#[verifier::ext_equal]
pub struct PathsConfig<T = String> {
    pub db_output_path: T,
    pub master_ndb_path: T,
    pub cifp_path: T,
    pub path_to_fix_dat: T,
    pub path_to_nav_dat: T,
    pub path_to_rwy_direction_csv: T,
    pub path_to_rwy_csv: T,
    pub path_to_ad_hp_csv: T,
    pub path_to_rte_seg_csv: T,
    pub path_to_vor_csv: T,
    pub path_to_ndb_csv: T,
}

impl View for PathsConfig {
    type V = PathsConfig<Seq<char>>;

    open spec fn view(&self) -> Self::V {
        PathsConfig {
            db_output_path: self.db_output_path@,
            master_ndb_path: self.master_ndb_path@,
            cifp_path: self.cifp_path@,
            path_to_fix_dat: self.path_to_fix_dat@,
            path_to_nav_dat: self.path_to_nav_dat@,
            path_to_rwy_direction_csv: self.path_to_rwy_direction_csv@,
            path_to_rwy_csv: self.path_to_rwy_csv@,
            path_to_ad_hp_csv: self.path_to_ad_hp_csv@,
            path_to_rte_seg_csv: self.path_to_rte_seg_csv@,
            path_to_vor_csv: self.path_to_vor_csv@,
            path_to_ndb_csv: self.path_to_ndb_csv@,
        }
    }
}

/// The settings that may be relative to the base path: the directory of procedures, the fixes and
/// the navigation aids.
pub open spec fn relative_values(settings: Settings<Seq<char>>) -> Seq<Seq<char>> {
    seq![settings.cifp_path, settings.path_to_fix_dat, settings.path_to_nav_dat]
}

/// Lists the settings that may be relative to the base path.
pub fn list_relative_values(settings: &Settings) -> (out: Vec<String>)
    ensures
        text::views(out@) == relative_values(settings@),
{
    let out: Vec<String> = vec![
        settings.cifp_path.clone(),
        settings.path_to_fix_dat.clone(),
        settings.path_to_nav_dat.clone(),
    ];
    assert(text::views(out@) =~= relative_values(settings@));
    out
}

/// The default files, in the order of their settings.
pub open spec fn default_files() -> Seq<DefaultFile> {
    seq![
        DefaultFile::RunwayDirections,
        DefaultFile::Runways,
        DefaultFile::Airports,
        DefaultFile::RouteSegments,
        DefaultFile::Vors,
        DefaultFile::Ndbs,
    ]
}

/// Lists the names of the default files.
pub fn list_default_names() -> (out: Vec<&'static str>)
    ensures
        text::views(out@) == default_files().map_values(|file: DefaultFile| default_name(file)),
{
    let out: Vec<&'static str> = vec![
        default_file_name(DefaultFile::RunwayDirections),
        default_file_name(DefaultFile::Runways),
        default_file_name(DefaultFile::Airports),
        default_file_name(DefaultFile::RouteSegments),
        default_file_name(DefaultFile::Vors),
        default_file_name(DefaultFile::Ndbs),
    ];
    assert(text::views(out@) =~= default_files().map_values(
        |file: DefaultFile| default_name(file),
    ));
    out
}

/// The paths of a run: of each setting that may be relative it is given whether it is absolute and
/// what it is when joined to the base path, and the default files are given by their paths.
pub open spec fn resolved_paths(
    settings: Settings<Seq<char>>,
    absolute: Seq<bool>,
    joined: Seq<Seq<char>>,
    defaults: Seq<Seq<char>>,
) -> PathsConfig<Seq<char>> {
    let base = settings.xplane_path;
    PathsConfig {
        db_output_path: settings.db_output_path,
        master_ndb_path: settings.master_ndb_path,
        cifp_path: configured_path(base, settings.cifp_path, true, absolute[0], joined[0]),
        path_to_fix_dat: configured_path(
            base,
            settings.path_to_fix_dat,
            true,
            absolute[1],
            joined[1],
        ),
        path_to_nav_dat: configured_path(
            base,
            settings.path_to_nav_dat,
            true,
            absolute[2],
            joined[2],
        ),
        path_to_rwy_direction_csv: path_or_default(
            settings.path_to_rwy_direction_csv,
            defaults[0],
        ),
        path_to_rwy_csv: path_or_default(settings.path_to_rwy_csv, defaults[1]),
        path_to_ad_hp_csv: path_or_default(settings.path_to_ad_hp_csv, defaults[2]),
        path_to_rte_seg_csv: path_or_default(settings.path_to_rte_seg_csv, defaults[3]),
        path_to_vor_csv: path_or_default(settings.path_to_vor_csv, defaults[4]),
        path_to_ndb_csv: path_or_default(settings.path_to_ndb_csv, defaults[5]),
    }
}

/// Puts the paths of a run together.
pub fn resolve_paths(
    settings: &Settings,
    absolute: &Vec<bool>,
    joined: &Vec<String>,
    defaults: &Vec<String>,
) -> (r: PathsConfig)
    requires
        absolute@.len() == relative_values(settings@).len(),
        joined@.len() == relative_values(settings@).len(),
        defaults@.len() == default_files().len(),
    ensures
        r@ == resolved_paths(settings@, absolute@, text::views(joined@), text::views(defaults@)),
{
    let base: &str = settings.xplane_path.as_str();
    PathsConfig {
        db_output_path: settings.db_output_path.clone(),
        master_ndb_path: settings.master_ndb_path.clone(),
        cifp_path: resolve_configured_path(
            base,
            settings.cifp_path.as_str(),
            true,
            absolute[0],
            joined[0].as_str(),
        ),
        path_to_fix_dat: resolve_configured_path(
            base,
            settings.path_to_fix_dat.as_str(),
            true,
            absolute[1],
            joined[1].as_str(),
        ),
        path_to_nav_dat: resolve_configured_path(
            base,
            settings.path_to_nav_dat.as_str(),
            true,
            absolute[2],
            joined[2].as_str(),
        ),
        path_to_rwy_direction_csv: optional_or_default(
            &settings.path_to_rwy_direction_csv,
            defaults[0].as_str(),
        ),
        path_to_rwy_csv: optional_or_default(&settings.path_to_rwy_csv, defaults[1].as_str()),
        path_to_ad_hp_csv: optional_or_default(&settings.path_to_ad_hp_csv, defaults[2].as_str()),
        path_to_rte_seg_csv: optional_or_default(
            &settings.path_to_rte_seg_csv,
            defaults[3].as_str(),
        ),
        path_to_vor_csv: optional_or_default(&settings.path_to_vor_csv, defaults[4].as_str()),
        path_to_ndb_csv: optional_or_default(&settings.path_to_ndb_csv, defaults[5].as_str()),
    }
}

/// A path with the key of its setting.
#[verifier::ext_equal]
pub struct NamedPath<T = String> {
    pub name: T,
    pub path: T,
}

impl View for NamedPath {
    type V = NamedPath<Seq<char>>;

    open spec fn view(&self) -> Self::V {
        NamedPath { name: self.name@, path: self.path@ }
    }
}

/// The paths that have to exist, in the order in which they are looked at.
pub open spec fn needed_paths(config: PathsConfig<Seq<char>>) -> Seq<NamedPath<Seq<char>>> {
    seq![
        NamedPath { name: "DB_OUTPUT_PATH"@, path: config.db_output_path },
        NamedPath { name: "MASTER_NDB_PATH"@, path: config.master_ndb_path },
        NamedPath { name: "CIFP_PATH"@, path: config.cifp_path },
        NamedPath { name: "PATH_TO_FIX_DAT"@, path: config.path_to_fix_dat },
        NamedPath { name: "PATH_TO_NAV_DAT"@, path: config.path_to_nav_dat },
        NamedPath { name: "PATH_TO_RWY_DIRECTION_CSV"@, path: config.path_to_rwy_direction_csv },
        NamedPath { name: "PATH_TO_RWY_CSV"@, path: config.path_to_rwy_csv },
        NamedPath { name: "PATH_TO_AD_HP_CSV"@, path: config.path_to_ad_hp_csv },
        NamedPath { name: "PATH_TO_RTE_SEG_CSV"@, path: config.path_to_rte_seg_csv },
        NamedPath { name: "PATH_TO_VOR_CSV"@, path: config.path_to_vor_csv },
        NamedPath { name: "PATH_TO_NDB_CSV"@, path: config.path_to_ndb_csv },
    ]
}

/// Lists the paths that have to exist.
pub fn list_needed_paths(config: &PathsConfig) -> (out: Vec<NamedPath>)
    ensures
        text::views(out@) == needed_paths(config@),
{
    let out: Vec<NamedPath> = vec![
        NamedPath { name: text::copy("DB_OUTPUT_PATH"), path: config.db_output_path.clone() },
        NamedPath { name: text::copy("MASTER_NDB_PATH"), path: config.master_ndb_path.clone() },
        NamedPath { name: text::copy("CIFP_PATH"), path: config.cifp_path.clone() },
        NamedPath { name: text::copy("PATH_TO_FIX_DAT"), path: config.path_to_fix_dat.clone() },
        NamedPath { name: text::copy("PATH_TO_NAV_DAT"), path: config.path_to_nav_dat.clone() },
        NamedPath { name: text::copy("PATH_TO_RWY_DIRECTION_CSV"), path: config.path_to_rwy_direction_csv.clone() },
        NamedPath { name: text::copy("PATH_TO_RWY_CSV"), path: config.path_to_rwy_csv.clone() },
        NamedPath { name: text::copy("PATH_TO_AD_HP_CSV"), path: config.path_to_ad_hp_csv.clone() },
        NamedPath { name: text::copy("PATH_TO_RTE_SEG_CSV"), path: config.path_to_rte_seg_csv.clone() },
        NamedPath { name: text::copy("PATH_TO_VOR_CSV"), path: config.path_to_vor_csv.clone() },
        NamedPath { name: text::copy("PATH_TO_NDB_CSV"), path: config.path_to_ndb_csv.clone() },
    ];
    assert(text::views(out@) =~= needed_paths(config@));
    out
}

/// The first path that does not exist, given of each whether it does.
pub open spec fn first_absent(exists: Seq<bool>) -> Option<int>
    decreases exists.len(),
{
    if exists.len() == 0 {
        None
    } else {
        match first_absent(exists.drop_last()) {
            Some(i) => Some(i),
            None => if exists.last() {
                None
            } else {
                Some(exists.len() - 1)
            },
        }
    }
}

/// Checks the paths of a run, given of each needed one whether it exists. The first that does not
/// is handed back.
pub fn validate_config_paths(config: &PathsConfig, exists: &Vec<bool>) -> (r: Result<
    (),
    NamedPath,
>)
    requires
        exists@.len() == needed_paths(config@).len(),
    ensures
        match r {
            Ok(_) => first_absent(exists@) is None,
            Err(path) => match first_absent(exists@) {
                Some(i) => path@ == needed_paths(config@)[i],
                None => false,
            },
        },
{
    let mut paths: Vec<NamedPath> = list_needed_paths(config);
    let ghost all = needed_paths(config@);
    assert(text::views(paths@).len() == paths@.len());
    assert(exists@.take(0).len() == 0);
    for i in 0..exists.len()
        invariant
            exists@.len() == all.len(),
            all == needed_paths(config@),
            text::views(paths@) == all,
            paths@.len() == all.len(),
            first_absent(exists@.take(i as int)) is None,
    {
        assert(exists@.take(i + 1).drop_last() == exists@.take(i as int));
        if !exists[i] {
            proof {
                lemma_first_absent(exists@, i as int);
                assert(all[i as int] == paths@[i as int]@);
            }
            return Err(paths.swap_remove(i));
        }
    }
    assert(exists@.take(exists@.len() as int) == exists@);
    Ok(())
}

proof fn lemma_first_absent(exists: Seq<bool>, i: int)
    requires
        0 <= i < exists.len(),
        first_absent(exists.take(i)) is None,
        !exists[i],
    ensures
        first_absent(exists) == Some(i),
    decreases exists.len(),
{
    if i == exists.len() - 1 {
        assert(exists.drop_last() =~= exists.take(i));
    } else {
        let init = exists.drop_last();
        assert(init.take(i) =~= exists.take(i));
        lemma_first_absent(init, i);
    }
}

/// Every setting is read from the key of its own name in the section of paths.
pub proof fn settings_are_read_from_keys_of_their_names(content: Seq<char>)
    requires
        unreadable(content) is None,
    ensures
        ini_value(content, "paths"@, "XPLANE_PATH"@) == Ok::<Option<Seq<char>>, Seq<char>>(
            raw_settings(content).xplane_path,
        ),
        ini_value(content, "paths"@, "NAIP_PATH"@) == Ok::<Option<Seq<char>>, Seq<char>>(
            raw_settings(content).naip_path,
        ),
        ini_value(content, "paths"@, "DB_OUTPUT_PATH"@) == Ok::<Option<Seq<char>>, Seq<char>>(
            raw_settings(content).db_output_path,
        ),
        ini_value(content, "paths"@, "MASTER_NDB_PATH"@) == Ok::<Option<Seq<char>>, Seq<char>>(
            raw_settings(content).master_ndb_path,
        ),
        ini_value(content, "paths"@, "CIFP_PATH"@) == Ok::<Option<Seq<char>>, Seq<char>>(
            raw_settings(content).cifp_path,
        ),
        ini_value(content, "paths"@, "PATH_TO_FIX_DAT"@) == Ok::<Option<Seq<char>>, Seq<char>>(
            raw_settings(content).path_to_fix_dat,
        ),
        ini_value(content, "paths"@, "PATH_TO_NAV_DAT"@) == Ok::<Option<Seq<char>>, Seq<char>>(
            raw_settings(content).path_to_nav_dat,
        ),
        ini_value(content, "paths"@, "PATH_TO_RWY_DIRECTION_CSV"@) == Ok::<Option<Seq<char>>, Seq<char>>(
            raw_settings(content).path_to_rwy_direction_csv,
        ),
        ini_value(content, "paths"@, "PATH_TO_RWY_CSV"@) == Ok::<Option<Seq<char>>, Seq<char>>(
            raw_settings(content).path_to_rwy_csv,
        ),
        ini_value(content, "paths"@, "PATH_TO_AD_HP_CSV"@) == Ok::<Option<Seq<char>>, Seq<char>>(
            raw_settings(content).path_to_ad_hp_csv,
        ),
        ini_value(content, "paths"@, "PATH_TO_RTE_SEG_CSV"@) == Ok::<Option<Seq<char>>, Seq<char>>(
            raw_settings(content).path_to_rte_seg_csv,
        ),
        ini_value(content, "paths"@, "PATH_TO_VOR_CSV"@) == Ok::<Option<Seq<char>>, Seq<char>>(
            raw_settings(content).path_to_vor_csv,
        ),
        ini_value(content, "paths"@, "PATH_TO_NDB_CSV"@) == Ok::<Option<Seq<char>>, Seq<char>>(
            raw_settings(content).path_to_ndb_csv,
        ),
{
}

/// Content is unreadable where a setting in it is.
pub proof fn content_is_unreadable_where_a_setting_is(content: Seq<char>)
    ensures
        unreadable(content) is Some <==> {
            ||| ini_value(content, "paths"@, "XPLANE_PATH"@) is Err
            ||| ini_value(content, "paths"@, "NAIP_PATH"@) is Err
            ||| ini_value(content, "paths"@, "DB_OUTPUT_PATH"@) is Err
            ||| ini_value(content, "paths"@, "MASTER_NDB_PATH"@) is Err
            ||| ini_value(content, "paths"@, "CIFP_PATH"@) is Err
            ||| ini_value(content, "paths"@, "PATH_TO_FIX_DAT"@) is Err
            ||| ini_value(content, "paths"@, "PATH_TO_NAV_DAT"@) is Err
            ||| ini_value(content, "paths"@, "PATH_TO_RWY_DIRECTION_CSV"@) is Err
            ||| ini_value(content, "paths"@, "PATH_TO_RWY_CSV"@) is Err
            ||| ini_value(content, "paths"@, "PATH_TO_AD_HP_CSV"@) is Err
            ||| ini_value(content, "paths"@, "PATH_TO_RTE_SEG_CSV"@) is Err
            ||| ini_value(content, "paths"@, "PATH_TO_VOR_CSV"@) is Err
            ||| ini_value(content, "paths"@, "PATH_TO_NDB_CSV"@) is Err
        },
        unreadable(content) matches Some(message) ==> {
            ||| ini_value(content, "paths"@, "XPLANE_PATH"@) == Err::<Option<Seq<char>>, Seq<char>>(
                message,
            )
            ||| ini_value(content, "paths"@, "NAIP_PATH"@) == Err::<Option<Seq<char>>, Seq<char>>(
                message,
            )
            ||| ini_value(content, "paths"@, "DB_OUTPUT_PATH"@) == Err::<Option<Seq<char>>, Seq<char>>(
                message,
            )
            ||| ini_value(content, "paths"@, "MASTER_NDB_PATH"@) == Err::<Option<Seq<char>>, Seq<char>>(
                message,
            )
            ||| ini_value(content, "paths"@, "CIFP_PATH"@) == Err::<Option<Seq<char>>, Seq<char>>(
                message,
            )
            ||| ini_value(content, "paths"@, "PATH_TO_FIX_DAT"@) == Err::<Option<Seq<char>>, Seq<char>>(
                message,
            )
            ||| ini_value(content, "paths"@, "PATH_TO_NAV_DAT"@) == Err::<Option<Seq<char>>, Seq<char>>(
                message,
            )
            ||| ini_value(content, "paths"@, "PATH_TO_RWY_DIRECTION_CSV"@) == Err::<Option<Seq<char>>, Seq<char>>(
                message,
            )
            ||| ini_value(content, "paths"@, "PATH_TO_RWY_CSV"@) == Err::<Option<Seq<char>>, Seq<char>>(
                message,
            )
            ||| ini_value(content, "paths"@, "PATH_TO_AD_HP_CSV"@) == Err::<Option<Seq<char>>, Seq<char>>(
                message,
            )
            ||| ini_value(content, "paths"@, "PATH_TO_RTE_SEG_CSV"@) == Err::<Option<Seq<char>>, Seq<char>>(
                message,
            )
            ||| ini_value(content, "paths"@, "PATH_TO_VOR_CSV"@) == Err::<Option<Seq<char>>, Seq<char>>(
                message,
            )
            ||| ini_value(content, "paths"@, "PATH_TO_NDB_CSV"@) == Err::<Option<Seq<char>>, Seq<char>>(
                message,
            )
        },
{
}

/// Required settings are trimmed, optional ones are dropped where they are blank, and none takes
/// the place of another.
pub proof fn settings_are_meant_as_they_are_named(raw: RawSettings<Seq<char>>)
    requires
        first_missing(raw) is None,
    ensures
        ({
            let meant = meant_settings(raw);
            &&& raw.xplane_path is Some ==> meant.xplane_path == raw.xplane_path->0
            &&& raw.xplane_path is None ==> meant.xplane_path == ""@
            &&& raw.naip_path is Some && meant.naip_path == text::trim(Blank::Unicode, raw.naip_path->0)
            &&& meant.naip_path.len() > 0
            &&& raw.db_output_path is Some && meant.db_output_path == text::trim(Blank::Unicode, raw.db_output_path->0)
            &&& meant.db_output_path.len() > 0
            &&& raw.master_ndb_path is Some && meant.master_ndb_path == text::trim(Blank::Unicode, raw.master_ndb_path->0)
            &&& meant.master_ndb_path.len() > 0
            &&& raw.cifp_path is Some && meant.cifp_path == text::trim(Blank::Unicode, raw.cifp_path->0)
            &&& meant.cifp_path.len() > 0
            &&& raw.path_to_fix_dat is Some && meant.path_to_fix_dat == text::trim(Blank::Unicode, raw.path_to_fix_dat->0)
            &&& meant.path_to_fix_dat.len() > 0
            &&& raw.path_to_nav_dat is Some && meant.path_to_nav_dat == text::trim(Blank::Unicode, raw.path_to_nav_dat->0)
            &&& meant.path_to_nav_dat.len() > 0
            &&& meant.path_to_rwy_direction_csv == (if raw.path_to_rwy_direction_csv is Some && text::trim(
                Blank::Unicode,
                raw.path_to_rwy_direction_csv->0,
            ).len() > 0 {
                raw.path_to_rwy_direction_csv
            } else {
                None
            })
            &&& meant.path_to_rwy_csv == (if raw.path_to_rwy_csv is Some && text::trim(
                Blank::Unicode,
                raw.path_to_rwy_csv->0,
            ).len() > 0 {
                raw.path_to_rwy_csv
            } else {
                None
            })
            &&& meant.path_to_ad_hp_csv == (if raw.path_to_ad_hp_csv is Some && text::trim(
                Blank::Unicode,
                raw.path_to_ad_hp_csv->0,
            ).len() > 0 {
                raw.path_to_ad_hp_csv
            } else {
                None
            })
            &&& meant.path_to_rte_seg_csv == (if raw.path_to_rte_seg_csv is Some && text::trim(
                Blank::Unicode,
                raw.path_to_rte_seg_csv->0,
            ).len() > 0 {
                raw.path_to_rte_seg_csv
            } else {
                None
            })
            &&& meant.path_to_vor_csv == (if raw.path_to_vor_csv is Some && text::trim(
                Blank::Unicode,
                raw.path_to_vor_csv->0,
            ).len() > 0 {
                raw.path_to_vor_csv
            } else {
                None
            })
            &&& meant.path_to_ndb_csv == (if raw.path_to_ndb_csv is Some && text::trim(
                Blank::Unicode,
                raw.path_to_ndb_csv->0,
            ).len() > 0 {
                raw.path_to_ndb_csv
            } else {
                None
            })
        }),
{
}

/// The first required setting that is blank is reported, by the key of its name.
pub proof fn the_first_blank_setting_is_reported(raw: RawSettings<Seq<char>>)
    ensures
        ({
            let blank = |value: Option<Seq<char>>|
                value is None || text::trim(Blank::Unicode, value->0).len() == 0;
            &&& blank(raw.naip_path) ==> first_missing(raw) == Some("NAIP_PATH"@)
            &&& !blank(raw.naip_path) && blank(raw.db_output_path) ==> first_missing(raw) == Some("DB_OUTPUT_PATH"@)
            &&& !blank(raw.naip_path) && !blank(raw.db_output_path) && blank(raw.master_ndb_path) ==> first_missing(raw) == Some("MASTER_NDB_PATH"@)
            &&& !blank(raw.naip_path) && !blank(raw.db_output_path) && !blank(raw.master_ndb_path) && blank(raw.cifp_path) ==> first_missing(raw) == Some("CIFP_PATH"@)
            &&& !blank(raw.naip_path) && !blank(raw.db_output_path) && !blank(raw.master_ndb_path) && !blank(raw.cifp_path) && blank(raw.path_to_fix_dat) ==> first_missing(raw) == Some("PATH_TO_FIX_DAT"@)
            &&& !blank(raw.naip_path) && !blank(raw.db_output_path) && !blank(raw.master_ndb_path) && !blank(raw.cifp_path) && !blank(raw.path_to_fix_dat) && blank(raw.path_to_nav_dat) ==> first_missing(raw) == Some("PATH_TO_NAV_DAT"@)
            &&& !blank(raw.naip_path) && !blank(raw.db_output_path) && !blank(raw.master_ndb_path) && !blank(raw.cifp_path) && !blank(raw.path_to_fix_dat) && !blank(raw.path_to_nav_dat) ==> first_missing(raw) is None
        }),
{
}

/// Three paths may be relative to the base path; the others stay as they are set, and those that are
/// not set get the default of their own file.
pub proof fn paths_are_resolved_each_by_its_own(
    settings: Settings<Seq<char>>,
    absolute: Seq<bool>,
    joined: Seq<Seq<char>>,
    defaults: Seq<Seq<char>>,
)
    ensures
        ({
            let paths = resolved_paths(settings, absolute, joined, defaults);
            let based = text::trim(Blank::Unicode, settings.xplane_path).len() > 0;
            &&& relative_values(settings)[0] == settings.cifp_path
            &&& relative_values(settings)[1] == settings.path_to_fix_dat
            &&& relative_values(settings)[2] == settings.path_to_nav_dat
            &&& paths.db_output_path == settings.db_output_path
            &&& paths.master_ndb_path == settings.master_ndb_path
            &&& !absolute[0] && based ==> paths.cifp_path == joined[0]
            &&& absolute[0] || !based ==> paths.cifp_path == settings.cifp_path
            &&& !absolute[1] && based ==> paths.path_to_fix_dat == joined[1]
            &&& absolute[1] || !based ==> paths.path_to_fix_dat == settings.path_to_fix_dat
            &&& !absolute[2] && based ==> paths.path_to_nav_dat == joined[2]
            &&& absolute[2] || !based ==> paths.path_to_nav_dat == settings.path_to_nav_dat
            &&& settings.path_to_rwy_direction_csv is Some ==> paths.path_to_rwy_direction_csv
                == settings.path_to_rwy_direction_csv->0
            &&& settings.path_to_rwy_direction_csv is None ==> paths.path_to_rwy_direction_csv == defaults[0]
            &&& default_files()[0] == DefaultFile::RunwayDirections
            &&& settings.path_to_rwy_csv is Some ==> paths.path_to_rwy_csv
                == settings.path_to_rwy_csv->0
            &&& settings.path_to_rwy_csv is None ==> paths.path_to_rwy_csv == defaults[1]
            &&& default_files()[1] == DefaultFile::Runways
            &&& settings.path_to_ad_hp_csv is Some ==> paths.path_to_ad_hp_csv
                == settings.path_to_ad_hp_csv->0
            &&& settings.path_to_ad_hp_csv is None ==> paths.path_to_ad_hp_csv == defaults[2]
            &&& default_files()[2] == DefaultFile::Airports
            &&& settings.path_to_rte_seg_csv is Some ==> paths.path_to_rte_seg_csv
                == settings.path_to_rte_seg_csv->0
            &&& settings.path_to_rte_seg_csv is None ==> paths.path_to_rte_seg_csv == defaults[3]
            &&& default_files()[3] == DefaultFile::RouteSegments
            &&& settings.path_to_vor_csv is Some ==> paths.path_to_vor_csv
                == settings.path_to_vor_csv->0
            &&& settings.path_to_vor_csv is None ==> paths.path_to_vor_csv == defaults[4]
            &&& default_files()[4] == DefaultFile::Vors
            &&& settings.path_to_ndb_csv is Some ==> paths.path_to_ndb_csv
                == settings.path_to_ndb_csv->0
            &&& settings.path_to_ndb_csv is None ==> paths.path_to_ndb_csv == defaults[5]
            &&& default_files()[5] == DefaultFile::Ndbs
        }),
        default_files().len() == 6,
        default_name(DefaultFile::RunwayDirections) == "RWY_DIRECTION.csv"@,
        default_name(DefaultFile::Runways) == "RWY.csv"@,
        default_name(DefaultFile::Airports) == "AD_HP.csv"@,
        default_name(DefaultFile::RouteSegments) == "RTE_SEG.csv"@,
        default_name(DefaultFile::Vors) == "VOR.csv"@,
        default_name(DefaultFile::Ndbs) == "NDB.csv"@,
{
}

/// Every path is needed, under the key of its name.
pub proof fn every_path_is_needed_under_its_name(config: PathsConfig<Seq<char>>)
    ensures
        needed_paths(config).len() == 11,
        needed_paths(config)[0] == (NamedPath { name: "DB_OUTPUT_PATH"@, path: config.db_output_path }),
        needed_paths(config)[1] == (NamedPath { name: "MASTER_NDB_PATH"@, path: config.master_ndb_path }),
        needed_paths(config)[2] == (NamedPath { name: "CIFP_PATH"@, path: config.cifp_path }),
        needed_paths(config)[3] == (NamedPath { name: "PATH_TO_FIX_DAT"@, path: config.path_to_fix_dat }),
        needed_paths(config)[4] == (NamedPath { name: "PATH_TO_NAV_DAT"@, path: config.path_to_nav_dat }),
        needed_paths(config)[5] == (NamedPath { name: "PATH_TO_RWY_DIRECTION_CSV"@, path: config.path_to_rwy_direction_csv }),
        needed_paths(config)[6] == (NamedPath { name: "PATH_TO_RWY_CSV"@, path: config.path_to_rwy_csv }),
        needed_paths(config)[7] == (NamedPath { name: "PATH_TO_AD_HP_CSV"@, path: config.path_to_ad_hp_csv }),
        needed_paths(config)[8] == (NamedPath { name: "PATH_TO_RTE_SEG_CSV"@, path: config.path_to_rte_seg_csv }),
        needed_paths(config)[9] == (NamedPath { name: "PATH_TO_VOR_CSV"@, path: config.path_to_vor_csv }),
        needed_paths(config)[10] == (NamedPath { name: "PATH_TO_NDB_CSV"@, path: config.path_to_ndb_csv }),
{
}

/// The first path that does not exist is reported, and none where all exist.
pub proof fn the_first_absent_path_is_reported(exists: Seq<bool>, k: int)
    requires
        forall|j: int| 0 <= j < k ==> #[trigger] exists[j],
        0 <= k <= exists.len(),
        k < exists.len() ==> !exists[k],
    ensures
        first_absent(exists) == (if k < exists.len() {
            Some(k)
        } else {
            None
        }),
    decreases exists.len(),
{
    if exists.len() > 0 {
        let init = exists.drop_last();
        let inner = if k < exists.len() {
            k
        } else {
            k - 1
        };
        assert forall|j: int| 0 <= j < inner implies #[trigger] init[j] by {
            assert(exists[j]);
        }
        if k == exists.len() {
            assert(exists[k - 1]);
        }
        the_first_absent_path_is_reported(init, inner);
    }
}

/// Every field of a `RawSettings` is seen under its own name.
pub proof fn every_field_of_raw_settings_is_seen(it: RawSettings)
    ensures
        it@.xplane_path == text::opt(it.xplane_path),
        it@.naip_path == text::opt(it.naip_path),
        it@.db_output_path == text::opt(it.db_output_path),
        it@.master_ndb_path == text::opt(it.master_ndb_path),
        it@.cifp_path == text::opt(it.cifp_path),
        it@.path_to_fix_dat == text::opt(it.path_to_fix_dat),
        it@.path_to_nav_dat == text::opt(it.path_to_nav_dat),
        it@.path_to_rwy_direction_csv == text::opt(it.path_to_rwy_direction_csv),
        it@.path_to_rwy_csv == text::opt(it.path_to_rwy_csv),
        it@.path_to_ad_hp_csv == text::opt(it.path_to_ad_hp_csv),
        it@.path_to_rte_seg_csv == text::opt(it.path_to_rte_seg_csv),
        it@.path_to_vor_csv == text::opt(it.path_to_vor_csv),
        it@.path_to_ndb_csv == text::opt(it.path_to_ndb_csv),
{
}

/// Every field of a `Settings` is seen under its own name.
pub proof fn every_field_of_settings_is_seen(it: Settings)
    ensures
        it@.xplane_path == it.xplane_path@,
        it@.naip_path == it.naip_path@,
        it@.db_output_path == it.db_output_path@,
        it@.master_ndb_path == it.master_ndb_path@,
        it@.cifp_path == it.cifp_path@,
        it@.path_to_fix_dat == it.path_to_fix_dat@,
        it@.path_to_nav_dat == it.path_to_nav_dat@,
        it@.path_to_rwy_direction_csv == text::opt(it.path_to_rwy_direction_csv),
        it@.path_to_rwy_csv == text::opt(it.path_to_rwy_csv),
        it@.path_to_ad_hp_csv == text::opt(it.path_to_ad_hp_csv),
        it@.path_to_rte_seg_csv == text::opt(it.path_to_rte_seg_csv),
        it@.path_to_vor_csv == text::opt(it.path_to_vor_csv),
        it@.path_to_ndb_csv == text::opt(it.path_to_ndb_csv),
{
}

/// Every field of a `PathsConfig` is seen under its own name.
pub proof fn every_field_of_paths_config_is_seen(it: PathsConfig)
    ensures
        it@.db_output_path == it.db_output_path@,
        it@.master_ndb_path == it.master_ndb_path@,
        it@.cifp_path == it.cifp_path@,
        it@.path_to_fix_dat == it.path_to_fix_dat@,
        it@.path_to_nav_dat == it.path_to_nav_dat@,
        it@.path_to_rwy_direction_csv == it.path_to_rwy_direction_csv@,
        it@.path_to_rwy_csv == it.path_to_rwy_csv@,
        it@.path_to_ad_hp_csv == it.path_to_ad_hp_csv@,
        it@.path_to_rte_seg_csv == it.path_to_rte_seg_csv@,
        it@.path_to_vor_csv == it.path_to_vor_csv@,
        it@.path_to_ndb_csv == it.path_to_ndb_csv@,
{
}

/// Every field of a `NamedPath` is seen under its own name.
pub proof fn every_field_of_named_path_is_seen(it: NamedPath)
    ensures
        it@.name == it.name@,
        it@.path == it.path@,
{
}

} // verus!
