//! Configuration: the settings tree and the layered merge. A base
//! configuration is overlaid by optional patches — the user file first,
//! then the environment — each able to set any single key.

use vstd::prelude::*;

verus! {

pub struct AuthSettings {
    pub apikey: Option<String>,
}

pub struct DatabaseSettings {
    pub url: String,
    pub sqlx_logging: bool,
}

pub struct AppSettings {
    pub spider: bool,
    pub update_info: bool,
    pub update_trackers: bool,
    pub clean: bool,
    pub filter_nsfw: bool,
}

pub struct Settings {
    pub database: DatabaseSettings,
    pub app: AppSettings,
    pub auth: AuthSettings,
}

/// One configuration source: every key it does not set stays absent.
pub struct SettingsPatch {
    pub database_url: Option<String>,
    pub database_sqlx_logging: Option<bool>,
    pub app_spider: Option<bool>,
    pub app_update_info: Option<bool>,
    pub app_update_trackers: Option<bool>,
    pub app_clean: Option<bool>,
    pub app_filter_nsfw: Option<bool>,
    pub auth_apikey: Option<String>,
}

pub open spec fn opt_str_view(o: Option<String>) -> Option<Seq<char>> {
    match o {
        Some(s) => Some(s@),
        None => None,
    }
}

pub open spec fn settings_view(s: Settings) -> (
    Seq<char>,
    bool,
    bool,
    bool,
    bool,
    bool,
    bool,
    Option<Seq<char>>,
) {
    (
        s.database.url@,
        s.database.sqlx_logging,
        s.app.spider,
        s.app.update_info,
        s.app.update_trackers,
        s.app.clean,
        s.app.filter_nsfw,
        opt_str_view(s.auth.apikey),
    )
}

/// The settings after one patch is laid over a base: each key the patch
/// sets replaces the base's value.
pub open spec fn patched_view(
    base: (Seq<char>, bool, bool, bool, bool, bool, bool, Option<Seq<char>>),
    p: SettingsPatch,
) -> (Seq<char>, bool, bool, bool, bool, bool, bool, Option<Seq<char>>) {
    (
        match p.database_url {
            Some(u) => u@,
            None => base.0,
        },
        match p.database_sqlx_logging {
            Some(b) => b,
            None => base.1,
        },
        match p.app_spider {
            Some(b) => b,
            None => base.2,
        },
        match p.app_update_info {
            Some(b) => b,
            None => base.3,
        },
        match p.app_update_trackers {
            Some(b) => b,
            None => base.4,
        },
        match p.app_clean {
            Some(b) => b,
            None => base.5,
        },
        match p.app_filter_nsfw {
            Some(b) => b,
            None => base.6,
        },
        match p.auth_apikey {
            Some(k) => Some(k@),
            None => base.7,
        },
    )
}

pub open spec fn opt_patch(
    base: (Seq<char>, bool, bool, bool, bool, bool, bool, Option<Seq<char>>),
    p: Option<SettingsPatch>,
) -> (Seq<char>, bool, bool, bool, bool, bool, bool, Option<Seq<char>>) {
    match p {
        Some(patch) => patched_view(base, patch),
        None => base,
    }
}

#[verifier::rlimit(60)]
fn apply_patch(base: Settings, p: SettingsPatch) -> (r: Settings)
    ensures
        settings_view(r) == patched_view(settings_view(base), p),
{
    Settings {
        database: DatabaseSettings {
            url: match p.database_url {
                Some(u) => u,
                None => base.database.url,
            },
            sqlx_logging: match p.database_sqlx_logging {
                Some(b) => b,
                None => base.database.sqlx_logging,
            },
        },
        app: AppSettings {
            spider: match p.app_spider {
                Some(b) => b,
                None => base.app.spider,
            },
            update_info: match p.app_update_info {
                Some(b) => b,
                None => base.app.update_info,
            },
            update_trackers: match p.app_update_trackers {
                Some(b) => b,
                None => base.app.update_trackers,
            },
            clean: match p.app_clean {
                Some(b) => b,
                None => base.app.clean,
            },
            filter_nsfw: match p.app_filter_nsfw {
                Some(b) => b,
                None => base.app.filter_nsfw,
            },
        },
        auth: AuthSettings {
            apikey: match p.auth_apikey {
                Some(k) => Some(k),
                None => base.auth.apikey,
            },
        },
    }
}

/// Merges the configuration sources in precedence order: the defaults,
/// then the optional user file, then the environment.
pub fn get_config(
    defaults: Settings,
    user_file: Option<SettingsPatch>,
    environment: Option<SettingsPatch>,
) -> (r: Settings)
    ensures
        settings_view(r) == opt_patch(
            opt_patch(settings_view(defaults), user_file),
            environment,
        ),
{
    let after_file = match user_file {
        Some(p) => apply_patch(defaults, p),
        None => defaults,
    };
    match environment {
        Some(p) => apply_patch(after_file, p),
        None => after_file,
    }
}

} // verus!
