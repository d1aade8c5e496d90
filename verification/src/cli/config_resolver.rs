use vstd::prelude::*;

use crate::cli::config::{default_config, GlobalConfig};
use crate::domain::log_filename::has_separator;
use crate::storage::fs_store::{failure, failure_view, text_result_view};
use crate::storage::storage_error::{IoFailure, IoKind};
use crate::text::{all_ws, is_blank, trim, trim_str};

verus! {

/// Where the effective configuration came from.
#[derive(Debug, Clone, PartialEq, Eq)]
pub enum ConfigOrigin {
    /// A `.bif-config` in (or above) the working directory pointing at a JSON file.
    Local {
        /// Path of the `.bif-config` found.
        dotfile_path: String,
        /// Path of the JSON file it refers to.
        json_path: String,
    },
    /// The user-level configuration file.
    Global,
    /// No configuration file: the defaults.
    Default,
}

/// The configuration a command runs with, and where it came from.
#[derive(Debug, Clone, PartialEq, Eq)]
pub struct EffectiveConfig {
    pub cfg: GlobalConfig,
    pub origin: ConfigOrigin,
}

/// A path that no platform takes for absolute: empty, or starting with neither `/` nor `\`
/// and holding no `:` (so without a root or a Windows prefix).
pub open spec fn plainly_relative(p: Seq<char>) -> bool {
    p.len() == 0 || (p[0] != '/' && p[0] != '\\' && !p.contains(':'))
}

/// `Path::new(p).is_absolute()`. On Unix a path is absolute when it starts with the root
/// (`/`); on Windows when it has a prefix (a drive `X:`, or one starting with `\\`) and
/// starts with the root. So an absolute path holds a separator, and a plainly relative path
/// is not absolute; which other paths are absolute differs between platforms, and is not
/// stated.
#[verifier::external_body]
pub(crate) fn path_is_absolute(p: &str) -> (b: bool)
    ensures
        b ==> has_separator(p@),
        plainly_relative(p@) ==> !b,
{
    std::path::Path::new(p).is_absolute()
}

/// What a `.bif-config` file's text refers to, given whether its trimmed text is an
/// absolute path: the trimmed text, unless it is empty or absolute.
pub open spec fn dotfile_reference_spec(raw: Seq<char>, dotfile: Seq<char>, absolute: bool) -> Result<Seq<char>, (IoKind, Seq<char>)> {
    let rel = trim(raw);
    if rel.len() == 0 {
        Err(failure(IoKind::InvalidData, ".bif-config at '"@ + dotfile + "' is empty; expected relative path to a JSON config file"@))
    } else if absolute {
        Err(failure(IoKind::InvalidData, ".bif-config at '"@ + dotfile + "' must contain a relative path, got absolute path '"@ + rel))
    } else {
        Ok(rel)
    }
}

/// What `dotfile_reference` decides about a `.bif-config` file's text, given whether
/// `Path::is_absolute` holds of the trimmed text.
pub fn dotfile_verdict(raw: &str, dotfile: &str, absolute: bool) -> (r: Result<String, IoFailure>)
    ensures
        text_result_view(r) == dotfile_reference_spec(raw@, dotfile@, absolute),
{
    let rel = trim_str(raw);
    if rel.as_str().is_empty() {
        let mut msg = String::from_str(".bif-config at '");
        msg.append(dotfile);
        msg.append("' is empty; expected relative path to a JSON config file");
        return Err(IoFailure::new(IoKind::InvalidData, msg));
    }
    if absolute {
        let mut msg = String::from_str(".bif-config at '");
        msg.append(dotfile);
        msg.append("' must contain a relative path, got absolute path '");
        msg.append(rel.as_str());
        return Err(IoFailure::new(IoKind::InvalidData, msg));
    }
    Ok(rel)
}

/// Reads the relative path out of a `.bif-config` file's text (`dotfile` names the file
/// in messages).
pub fn dotfile_reference(raw: &str, dotfile: &str) -> (r: Result<String, IoFailure>)
    ensures
        exists|absolute: bool| #[trigger] dotfile_reference_spec(raw@, dotfile@, absolute) == text_result_view(r),
        !has_separator(trim(raw@)) ==> text_result_view(r) == dotfile_reference_spec(raw@, dotfile@, false),
        plainly_relative(trim(raw@)) ==> text_result_view(r) == dotfile_reference_spec(raw@, dotfile@, false),
{
    let rel = trim_str(raw);
    let absolute = path_is_absolute(rel.as_str());
    dotfile_verdict(raw, dotfile, absolute)
}

/// Where a configuration read from the user-level location came from: `Global` when that
/// file existed (and parsed), `Default` when there was none.
pub fn global_origin(file_found: bool) -> (o: ConfigOrigin)
    ensures
        o is Global <==> file_found,
        o is Default <==> !file_found,
{
    if file_found {
        ConfigOrigin::Global
    } else {
        ConfigOrigin::Default
    }
}

/// The configuration in effect where no `.bif-config` applies: the user-level file's when
/// that file existed, else the defaults.
pub fn global_effective_config(found: Option<GlobalConfig>) -> (e: EffectiveConfig)
    ensures
        match found {
            Some(c) => e.cfg@ == c@ && e.origin is Global,
            None => e.cfg@ == default_config() && e.origin is Default,
        },
{
    match found {
        Some(cfg) => EffectiveConfig { cfg, origin: global_origin(true) },
        None => EffectiveConfig { cfg: GlobalConfig::default(), origin: global_origin(false) },
    }
}

/// Where the user-level configuration file lies, as path components to join in order:
/// under `appdata` (given on Windows only) when set; else under a non-blank `xdg`; else
/// under `home`'s `.config`; with none of them, a `NotFound` failure.
pub open spec fn config_path_spec(
    appdata: Option<Seq<char>>,
    xdg: Option<Seq<char>>,
    home: Option<Seq<char>>,
) -> Result<Seq<Seq<char>>, (IoKind, Seq<char>)> {
    if appdata is Some {
        Ok(seq![appdata->0, "bif"@, "config.json"@])
    } else if xdg is Some && !all_ws(xdg->0) {
        Ok(seq![xdg->0, "bif"@, "config.json"@])
    } else if home is Some {
        Ok(seq![home->0, ".config"@, "bif"@, "config.json"@])
    } else {
        Err(failure(IoKind::NotFound, "HOME not set; cannot resolve default config path"@))
    }
}

pub open spec fn opt_text(o: Option<String>) -> Option<Seq<char>> {
    match o {
        Some(s) => Some(s@),
        None => None,
    }
}

pub open spec fn components_view(r: Result<Vec<String>, IoFailure>) -> Result<Seq<Seq<char>>, (IoKind, Seq<char>)> {
    match r {
        Ok(v) => Ok(v@.map_values(|s: String| s@)),
        Err(e) => Err(failure_view(e)),
    }
}

/// The path components of the user-level configuration file, from the values of
/// `APPDATA` (on Windows only), `XDG_CONFIG_HOME` and `HOME`.
pub fn config_path_from(appdata: Option<String>, xdg: Option<String>, home: Option<String>) -> (r: Result<Vec<String>, IoFailure>)
    ensures
        components_view(r) == config_path_spec(opt_text(appdata), opt_text(xdg), opt_text(home)),
{
    let ghost spec = config_path_spec(opt_text(appdata), opt_text(xdg), opt_text(home));
    let base_and_dot: Option<(String, bool)> = match appdata {
        Some(a) => Some((a, false)),
        None => match xdg {
            Some(x) => if is_blank(x.as_str()) {
                match home {
                    Some(h) => Some((h, true)),
                    None => None,
                }
            } else {
                Some((x, false))
            },
            None => match home {
                Some(h) => Some((h, true)),
                None => None,
            },
        },
    };
    assert(base_and_dot is None <==> spec is Err);
    match base_and_dot {
        None => Err(IoFailure::new(IoKind::NotFound, String::from_str("HOME not set; cannot resolve default config path"))),
        Some((base, dot)) => {
            assert(spec is Ok && spec->Ok_0[0] == base@);
            assert(dot <==> spec->Ok_0.len() == 4);
            let mut v: Vec<String> = Vec::new();
            v.push(base);
            if dot {
                v.push(String::from_str(".config"));
            }
            v.push(String::from_str("bif"));
            v.push(String::from_str("config.json"));
            assert(v@.map_values(|s: String| s@) =~= spec->Ok_0);
            Ok(v)
        },
    }
}

} // verus!
