//! What the command-line tool says about the controller and the settings, and which settings
//! file it agrees to change.

use vstd::prelude::*;
use crate::config::{default_model, parse, parse_result, Config, Curve, CurveModel, FileRead};
use crate::fanconnect::{MODE_AUTO, MODE_HOST};
use crate::text::push_str;

verus! {

/// The mode register in words.
pub fn mode_name(mode: u8) -> (r: &'static str)
    ensures
        r@ == (if mode == MODE_HOST {
            "host"@
        } else if mode == MODE_AUTO {
            "card auto"@
        } else {
            "unknown"@
        }),
{
    if mode == MODE_HOST {
        "host"
    } else if mode == MODE_AUTO {
        "card auto"
    } else {
        "unknown"
    }
}

pub fn curve_name(curve: &Curve) -> (r: &'static str)
    ensures
        r@ == (match curve@ {
            CurveModel::Auto => "Auto (built-in)"@,
            CurveModel::Custom(_) => "custom"@,
        }),
{
    match curve {
        Curve::Auto => "Auto (built-in)",
        Curve::Custom(_) => "custom",
    }
}

/// The settings a command may change, from what reading the file at `path` gave: the file's
/// own settings, the defaults if there is no file, and an error for a file that does not parse,
/// so hand edits are never overwritten.
pub fn editable_config(path: &str, read: FileRead) -> (r: Result<Config, String>)
    ensures
        match read {
            FileRead::Text(t) => match parse_result(t@) {
                Ok(c) => r matches Ok(x) && x@ == c,
                Err(e) => r matches Err(m) && m@ == path@ + " is invalid; fix or delete it first: "@
                    + e,
            },
            FileRead::NotFound => r matches Ok(x) && x@ == default_model(),
            FileRead::Failed(reason) => r matches Err(m) && m@ == "reading "@ + path@ + ": "@
                + reason@,
        },
{
    match read {
        FileRead::Text(text) => match parse(text.as_str()) {
            Ok(c) => Ok(c),
            Err(e) => {
                let mut m = String::new();
                push_str(&mut m, path);
                push_str(&mut m, " is invalid; fix or delete it first: ");
                push_str(&mut m, e.as_str());
                Err(m)
            },
        },
        FileRead::NotFound => Ok(Config::default()),
        FileRead::Failed(reason) => {
            let mut m = String::new();
            push_str(&mut m, "reading ");
            push_str(&mut m, path);
            push_str(&mut m, ": ");
            push_str(&mut m, reason.as_str());
            Err(m)
        },
    }
}

} // verus!
