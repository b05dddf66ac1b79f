//! Code templates: the built-in one and templates read from files the user lists.

use vstd::prelude::*;
use vstd::string::StringExecFns;
use vstd::string::StringSliceAdditionalSpecFns;
use vstd::string::StrSliceExecFns;
use crate::error::{E, Severity};
use crate::json::opt_text;
use crate::text::{split, split_at_char, str_eq, texts, trim, trimmed};

verus! {

/// The path under which the built-in template appears in the list of templates.
pub const BUILTIN_TEMPLATE_PSEUDOPATH: &'static str = "<enter a path to use a custom template>";

/// The code of the built-in template.
pub const BUILTIN_TEMPLATE_CODE: &'static str = "\n#include <bits/stdc++.h>\nusing namespace std;\n\n// \u{1f496} Hi, thanks for using ICIE! \u{1f496}\n// \u{1f527} To use a custom code template, set it in Settings(Ctrl+,) in \"Icie Template List\" entry \u{1f527}\n// \u{1f4dd} If you spot any bugs or miss any features, create an issue at https://github.com/pustaczek/icie/issues \u{1f4dd}\n\nint main() {\n    ios::sync_with_stdio(false);\n    cin.tie(nullptr);\n    \n}\n";

/// A template ready to be written to a new file.
pub struct LoadedTemplate {
    pub suggested_filename: String,
    pub code: String,
}

/// Where a template comes from.
pub enum TemplateSource {
    /// The built-in template.
    Builtin { template: LoadedTemplate },
    /// A file, by its path with a leading `~` expanded; its content is the code, and its name,
    /// which the path may lack, the suggested file name.
    Custom { path: String, suggested_filename: Option<String> },
}

/// What `shellexpand::tilde` may give for `input`: a leading `~` that stands alone or before a
/// path separator is replaced by the home directory, when one is known; anything else is
/// left as it is.
pub open spec fn tilde_expansion(input: Seq<char>, out: Seq<char>) -> bool {
    if input.len() > 0 && input[0] == '~' && (input.len() == 1 || input[1] == '/' || input[1] == '\\') {
        out == input || exists|home: Seq<char>| out == home + input.drop_first()
    } else {
        out == input
    }
}

/// `shellexpand::tilde`: expands a leading `~` to the home directory. Which home directory,
/// and whether one is known at all, depends on the environment, so the result is stated
/// only up to that.
#[verifier::external_body]
fn expand_tilde(path: &str) -> (r: String)
    ensures
        tilde_expansion(path@, r@),
{
    shellexpand::tilde(path).into_owned()
}

/// Load the template listed under `path`: the built-in one, made with the solution's stem
/// and the C++ extension, or the file to read.
pub fn load(path: &str, solution_stem: &str, cpp_extension: &str) -> (s: TemplateSource)
    ensures
        (path@ == BUILTIN_TEMPLATE_PSEUDOPATH@) == (s is Builtin),
        s matches TemplateSource::Builtin { template } ==> {
            &&& template.suggested_filename@ == solution_stem@ + "."@ + cpp_extension@
            &&& template.code@ == trimmed(BUILTIN_TEMPLATE_CODE@) + "\n"@
        },
        s matches TemplateSource::Custom { path: p, suggested_filename } ==> {
            &&& tilde_expansion(path@, p@)
            &&& opt_text(suggested_filename) == file_name_of(p@)
        },
{
    if str_eq(path, BUILTIN_TEMPLATE_PSEUDOPATH) {
        TemplateSource::Builtin { template: builtin_template(solution_stem, cpp_extension) }
    } else {
        let path = expand_tilde(path);
        let suggested_filename = file_name(path.as_str());
        TemplateSource::Custom { path, suggested_filename }
    }
}

/// The name that ends a list of path components, as `Path::file_name` reads it: empty
/// components and `.` are skipped from the end, and a path that ends in `..`, or has no other
/// component, has no name.
pub open spec fn last_name(parts: Seq<Seq<char>>) -> Option<Seq<char>>
    decreases parts.len(),
{
    if parts.len() == 0 {
        None
    } else {
        let c = parts.last();
        if c.len() == 0 || c == "."@ {
            last_name(parts.drop_last())
        } else if c == ".."@ {
            None
        } else {
            Some(c)
        }
    }
}

/// The file name at the end of the `/`-separated path `path`.
pub open spec fn file_name_of(path: Seq<char>) -> Option<Seq<char>> {
    last_name(split(path, '/'))
}

/// The file name at the end of the path `path`, if it has one.
pub fn file_name(path: &str) -> (r: Option<String>)
    ensures
        opt_text(r) == file_name_of(path@),
{
    let parts = split_at_char(path, '/');
    let ghost all = texts(parts@);
    let mut j: usize = parts.len();
    assert(all.subrange(0, j as int) =~= all);
    while j > 0
        invariant
            j <= parts@.len(),
            all == texts(parts@),
            all == split(path@, '/'),
            last_name(all) == last_name(all.subrange(0, j as int)),
        decreases j,
    {
        let ghost sub = all.subrange(0, j as int);
        assert(sub.drop_last() =~= all.subrange(0, j - 1));
        assert(sub.last() == parts@[j - 1]@);
        let c = parts[j - 1].as_str();
        if c.unicode_len() == 0 || str_eq(c, ".") {
            j -= 1;
        } else if str_eq(c, "..") {
            return None;
        } else {
            let name = c.to_string();
            return Some(name);
        }
    }
    None
}

/// The built-in template, with a file name made of the solution's stem and the C++ extension.
pub fn builtin_template(solution_stem: &str, cpp_extension: &str) -> (t: LoadedTemplate)
    ensures
        t.suggested_filename@ == solution_stem@ + "."@ + cpp_extension@,
        t.code@ == trimmed(BUILTIN_TEMPLATE_CODE@) + "\n"@,
{
    let mut suggested_filename = solution_stem.to_owned();
    suggested_filename.append(".");
    suggested_filename.append(cpp_extension);
    let mut code = trim(BUILTIN_TEMPLATE_CODE);
    code.append("\n");
    LoadedTemplate { suggested_filename, code }
}

/// A new file from a template may be written only where no file exists yet.
pub fn check_new_file(exists: bool) -> (r: Result<(), E>)
    ensures
        r is Ok == !exists,
        r matches Err(e) ==> {
            &&& e.severity == Severity::Error
            &&& e.reason_texts() == seq!["file already exists"@]
            &&& e.details@.len() == 0
            &&& e.actions@.len() == 0
            &&& e.extended@.len() == 0
        },
{
    if exists {
        Err(E::error("file already exists"))
    } else {
        Ok(())
    }
}

/// The byte offset of the last `.` in a file name, which ends the part that is selected for
/// editing when the user names a new file; `None` when there is no `.`.
pub fn extension_dot(filename: &str) -> (r: Option<usize>)
    ensures
        r matches Some(i) ==> i < filename.spec_bytes().len() && filename.spec_bytes()[i as int] == 46
            && forall|k: int| i < k < filename.spec_bytes().len() ==> filename.spec_bytes()[k] != 46,
        r is None ==> forall|k: int| 0 <= k < filename.spec_bytes().len() ==> filename.spec_bytes()[k] != 46,
{
    let bytes = filename.as_bytes();
    let mut k = bytes.len();
    while k > 0
        invariant
            k <= bytes@.len(),
            bytes@ == filename.spec_bytes(),
            forall|j: int| k <= j < bytes@.len() ==> bytes@[j] != 46,
        decreases k,
    {
        k -= 1;
        if bytes[k] == 46 {
            return Some(k);
        }
    }
    None
}

} // verus!
