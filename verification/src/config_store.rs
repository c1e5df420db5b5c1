//! Where the app keeps its files: `config.json` and the generated Caddyfile
//! under `~/Library/Application Support/perch`. Reading and writing them is
//! left to the caller.

use vstd::prelude::*;
use crate::text::{chars_of, path_join, path_join_exec, trim, trim_chars};

verus! {

pub const APP_DIR_REL: &'static str = "Library/Application Support/perch";

pub const CONFIG_FILENAME: &'static str = "config.json";

pub const CADDYFILE_FILENAME: &'static str = "Caddyfile";

/// The app directory for the given home.
pub fn app_dir_path(home: &str) -> (r: String)
    ensures
        r@ == path_join(home@, APP_DIR_REL@),
{
    path_join_exec(home, APP_DIR_REL)
}

/// `config.json` inside the app directory.
pub fn config_path(app_dir: &str) -> (r: String)
    ensures
        r@ == path_join(app_dir@, CONFIG_FILENAME@),
{
    path_join_exec(app_dir, CONFIG_FILENAME)
}

/// The generated Caddyfile inside the app directory.
pub fn caddyfile_path(app_dir: &str) -> (r: String)
    ensures
        r@ == path_join(app_dir@, CADDYFILE_FILENAME@),
{
    path_join_exec(app_dir, CADDYFILE_FILENAME)
}

/// Whether a config file's text is blank (then the default config is used).
pub fn is_blank(text: &str) -> (r: bool)
    ensures
        r == (trim(text@).len() == 0),
{
    let v = chars_of(text);
    let t = trim_chars(&v);
    t.len() == 0
}

} // verus!
