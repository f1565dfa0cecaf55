//! The report of `modules check`: one line per failed module or
//! environment, and the summary that collects them.

use crate::order::{is_sorted_permutation, sort_strings};
use crate::text::{
    append_chars, append_str, chars_of, join, join_strings, replace, replace_char, trim, trim_ws,
    utf8_lossy, utf8_lossy_text, views,
};
use vstd::prelude::*;

verus! {

/// The label of a module environment: `MODULE:ENV`.
pub fn check_label(module: &str, environment: &str) -> (r: String)
    ensures
        r@ == module@ + seq![':'] + environment@,
{
    let mut r = module.to_owned();
    crate::text::push_char(&mut r, ':');
    append_str(&mut r, environment);
    r
}

/// The failure line of a module whose environments could not be listed.
pub fn discovery_failure(module: &str, error: &str) -> (r: String)
    ensures
        r@ == module@ + ": "@ + error@,
{
    let mut r = module.to_owned();
    append_str(&mut r, ": ");
    append_str(&mut r, error);
    r
}

/// The detail of a failed export: nothing without error output, otherwise
/// the trimmed error output on indented lines.
pub open spec fn export_detail(stderr: Seq<char>) -> Seq<char> {
    let trimmed = trim_ws(stderr);
    if trimmed.len() == 0 {
        Seq::empty()
    } else {
        seq!['\n', ' ', ' '] + replace_char(trimmed, '\n', seq!['\n', ' ', ' '])
    }
}

/// The failure line of an environment whose export failed with `status`.
pub fn export_failure(module: &str, environment: &str, status: &str, stderr: &[u8]) -> (r: String)
    ensures
        r@ == module@ + seq![':'] + environment@ + ": "@ + status@ + export_detail(
            utf8_lossy_text(stderr@),
        ),
{
    let text = utf8_lossy(stderr);
    let trimmed = trim(chars_of(text.as_str()).as_slice());
    let mut r = check_label(module, environment);
    append_str(&mut r, ": ");
    append_str(&mut r, status);
    if trimmed.len() > 0 {
        let indent: Vec<char> = vec!['\n', ' ', ' '];
        assert(indent@ =~= seq!['\n', ' ', ' ']);
        let indented = replace(trimmed.as_slice(), '\n', indent.as_slice());
        append_chars(&mut r, indent.as_slice());
        append_chars(&mut r, indented.as_slice());
    }
    r
}

/// The failure line of an environment whose drift plan, run with
/// `-detailed-exitcode`, ended with `status` and exit code `code`: none for
/// code 0 (no changes), "plan reports changes" for code 2, and otherwise the
/// status with the plan's error output, as for a failed export.
pub fn drift_failure(
    module: &str,
    environment: &str,
    code: Option<i32>,
    status: &str,
    stderr: &[u8],
) -> (r: Option<String>)
    ensures
        code == Some(0i32) ==> r is None,
        code == Some(2i32) ==> (r matches Some(m) && m@ == module@ + seq![':'] + environment@
            + ": plan reports changes"@),
        code != Some(0i32) && code != Some(2i32) ==> (r matches Some(m) && m@ == module@ + seq![
            ':',
        ] + environment@ + ": "@ + status@ + export_detail(utf8_lossy_text(stderr@))),
{
    match code {
        Some(0) => None,
        Some(2) => {
            let mut r = check_label(module, environment);
            append_str(&mut r, ": plan reports changes");
            Some(r)
        },
        _ => Some(export_failure(module, environment, status, stderr)),
    }
}

/// The outcome of the checks: success without failures, otherwise the
/// failures in order, each on a line of its own.
pub fn check_report(failures: Vec<String>) -> (r: Result<(), String>)
    ensures
        failures@.len() == 0 ==> r is Ok,
        failures@.len() > 0 ==> exists|sorted: Seq<Seq<char>>|
            is_sorted_permutation(sorted, views(failures@)) && (r matches Err(m) && m@
                == "Module checks failed:\n- "@ + join(sorted, "\n- "@)),
{
    if failures.len() == 0 {
        return Ok(());
    }
    let sorted = sort_strings(failures);
    let mut m = "Module checks failed:\n- ".to_owned();
    append_str(&mut m, join_strings(sorted.as_slice(), "\n- ").as_str());
    assert(is_sorted_permutation(views(sorted@), views(failures@)));
    Err(m)
}

/// The line that reports a check outside a terminal: `PASS` only for a
/// check that succeeded, `FAIL` for a failed or unfinished one.
pub fn plain_status_line(label: &str, status: Option<bool>) -> (r: String)
    ensures
        r@ == (if status == Some(true) {
            "PASS"@
        } else {
            "FAIL"@
        }) + " Checking "@ + label@,
{
    let mut r = if status == Some(true) {
        "PASS".to_owned()
    } else {
        "FAIL".to_owned()
    };
    append_str(&mut r, " Checking ");
    append_str(&mut r, label);
    r
}

} // verus!
