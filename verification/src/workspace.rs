//! The workspace and the module that a command targets, named by canonical
//! absolute paths that the caller has already resolved.

use crate::text::{
    chars_equal, chars_of, has_prefix, slice_from, split_by, split_char, starts_with, string_of,
    views,
};
use vstd::prelude::*;

verus! {

/// The file that marks a module directory.
pub const MODULE_MARKER: &'static str = "cuet.cue";

/// The file that marks the workspace root.
pub const WORKSPACE_MARKER: &'static str = ".cuetroot.cue";

/// Where a canonical path `target` lies below the canonical path `root`:
/// the components after `root`, empty when they are the same directory,
/// `None` when `target` is not inside `root`.
pub open spec fn relative_within(root: Seq<char>, target: Seq<char>) -> Option<Seq<char>> {
    if target == root {
        Some(Seq::empty())
    } else if root == seq!['/'] && starts_with(target, seq!['/']) {
        Some(target.drop_first())
    } else if starts_with(target, root + seq!['/']) {
        Some(target.skip(root.len() as int + 1))
    } else {
        None
    }
}

/// The last component of a canonical path; `None` for the root and for a
/// path that ends in `..`.
pub open spec fn file_name_of(path: Seq<char>) -> Option<Seq<char>> {
    let last = split_char(path, '/').last();
    if last.len() == 0 || last == seq!['.', '.'] {
        None
    } else {
        Some(last)
    }
}

/// Where `target` lies below `root`.
pub fn relative_path(root: &str, target: &str) -> (r: Option<String>)
    ensures
        match relative_within(root@, target@) {
            Some(p) => r matches Some(s) && s@ == p,
            None => r is None,
        },
{
    let rc = chars_of(root);
    let tc = chars_of(target);
    if chars_equal(rc.as_slice(), tc.as_slice()) {
        return Some(String::new());
    }
    let slash: Vec<char> = vec!['/'];
    assert(slash@ =~= seq!['/']);
    if chars_equal(rc.as_slice(), slash.as_slice()) {
        if has_prefix(tc.as_slice(), slash.as_slice()) {
            let rest = slice_from(tc.as_slice(), 1);
            assert(rest@ =~= target@.drop_first());
            return Some(string_of(rest.as_slice()));
        }
    }
    let mut prefix = rc.clone();
    prefix.push('/');
    assert(prefix@ =~= root@ + seq!['/']);
    if has_prefix(tc.as_slice(), prefix.as_slice()) {
        let rest = slice_from(tc.as_slice(), prefix.len());
        return Some(string_of(rest.as_slice()));
    }
    None
}

/// The last component of a canonical path.
pub fn file_name(path: &str) -> (r: Option<String>)
    ensures
        match file_name_of(path@) {
            Some(n) => r matches Some(s) && s@ == n,
            None => r is None,
        },
{
    let pc = chars_of(path);
    let parts = split_by(pc.as_slice(), '/');
    proof {
        crate::text::lemma_split_char_nonempty(path@, '/');
    }
    let last = &parts[parts.len() - 1];
    assert(last@ == split_char(path@, '/').last());
    let dots: Vec<char> = vec!['.', '.'];
    assert(dots@ =~= seq!['.', '.']);
    if last.len() == 0 || chars_equal(last.as_slice(), dots.as_slice()) {
        None
    } else {
        Some(string_of(last.as_slice()))
    }
}

/// Why a target cannot be a module of the workspace.
#[derive(Debug, Clone)]
pub enum WorkspaceError {
    /// The target directory is not inside the workspace root.
    OutsideWorkspace { target: String, root: String },
    /// The target directory has no name to use as its CUE package.
    NoPackage,
}

impl WorkspaceError {
    /// The text of the error.
    pub fn message(&self) -> (r: String)
        ensures
            r@ == match self {
                WorkspaceError::OutsideWorkspace { target, root } => "Target module '"@ + target@
                    + "' must be inside workspace '"@ + root@ + "'"@,
                WorkspaceError::NoPackage => "Could not infer CUE package from target module"@,
            },
    {
        match self {
            WorkspaceError::OutsideWorkspace { target, root } => {
                let mut m = "Target module '".to_owned();
                crate::text::append_str(&mut m, target.as_str());
                crate::text::append_str(&mut m, "' must be inside workspace '");
                crate::text::append_str(&mut m, root.as_str());
                crate::text::append_str(&mut m, "'");
                m
            },
            WorkspaceError::NoPackage => "Could not infer CUE package from target module".to_owned(),
        }
    }
}

/// A workspace root and the module directory that a command targets.
#[derive(Debug)]
pub struct Workspace {
    root: String,
    target_dir: String,
    module_name: String,
    module_package: String,
}

/// What a workspace denotes.
pub struct WorkspaceView {
    pub root: Seq<char>,
    pub target_dir: Seq<char>,
    pub module_name: Seq<char>,
    pub module_package: Seq<char>,
}

impl View for Workspace {
    type V = WorkspaceView;

    closed spec fn view(&self) -> WorkspaceView {
        WorkspaceView {
            root: self.root@,
            target_dir: self.target_dir@,
            module_name: self.module_name@,
            module_package: self.module_package@,
        }
    }
}

impl Workspace {
    /// A workspace names its target by the target's path below the root, and
    /// its CUE package by the target's last component.
    #[verifier::type_invariant]
    spec fn well_formed(self) -> bool {
        &&& relative_within(self.root@, self.target_dir@) == Some(self.module_name@)
        &&& file_name_of(self.target_dir@) == Some(self.module_package@)
    }

    /// The workspace with canonical root `root` targeting the canonical
    /// directory `target_dir`: its module name is the target's path below
    /// the root, its CUE package the target's last component.
    pub fn from_canonical(root: String, target_dir: String) -> (r: Result<Workspace, WorkspaceError>)
        ensures
            match relative_within(root@, target_dir@) {
                None => r matches Err(WorkspaceError::OutsideWorkspace { target: t, root: w }) && t@
                    == target_dir@ && w@ == root@,
                Some(name) => match file_name_of(target_dir@) {
                    None => r matches Err(WorkspaceError::NoPackage),
                    Some(package) => r matches Ok(w) && w@.root == root@ && w@.target_dir
                        == target_dir@ && w@.module_name == name && w@.module_package == package,
                },
            },
    {
        let module_name = match relative_path(root.as_str(), target_dir.as_str()) {
            Some(name) => name,
            None => return Err(WorkspaceError::OutsideWorkspace { target: target_dir, root }),
        };
        let module_package = match file_name(target_dir.as_str()) {
            Some(package) => package,
            None => return Err(WorkspaceError::NoPackage),
        };
        Ok(Workspace { root, target_dir, module_name, module_package })
    }

    /// The workspace root.
    pub fn root(&self) -> (r: &str)
        ensures
            r@ == self@.root,
    {
        self.root.as_str()
    }

    /// The target module's directory.
    pub fn target_dir(&self) -> (r: &str)
        ensures
            r@ == self@.target_dir,
    {
        self.target_dir.as_str()
    }

    /// The target module's path below the workspace root.
    pub fn module_name(&self) -> (r: &str)
        ensures
            r@ == self@.module_name,
            relative_within(self@.root, self@.target_dir) == Some(r@),
    {
        proof {
            use_type_invariant(self);
        }
        self.module_name.as_str()
    }

    /// The target module's CUE package: the last component of its directory.
    pub fn module_package(&self) -> (r: &str)
        ensures
            r@ == self@.module_package,
            file_name_of(self@.target_dir) == Some(r@),
    {
        proof {
            use_type_invariant(self);
        }
        self.module_package.as_str()
    }
}

/// The message that names the targeted module and environment.
pub fn target_message(workspace: &Workspace, env: &str) -> (r: String)
    ensures
        r@ == "Module: "@ + workspace@.module_name + "\nEnvironment: "@ + env@,
{
    let mut r = "Module: ".to_owned();
    crate::text::append_str(&mut r, workspace.module_name());
    crate::text::append_str(&mut r, "\nEnvironment: ");
    crate::text::append_str(&mut r, env);
    r
}

/// `base` joined with `part` as `Path::join` joins them: `part` alone when
/// it is absolute, otherwise `part` after `base` with one `/` between them
/// unless `base` is empty or already ends with `/`.
pub open spec fn path_join_text(base: Seq<char>, part: Seq<char>) -> Seq<char> {
    if part.len() > 0 && part[0] == '/' {
        part
    } else if base.len() == 0 || base.last() == '/' {
        base + part
    } else {
        base + seq!['/'] + part
    }
}

/// `base` joined with `part`.
pub fn path_join(base: &str, part: &str) -> (r: String)
    ensures
        r@ == path_join_text(base@, part@),
{
    let b = chars_of(base);
    let p = chars_of(part);
    if p.len() > 0 && p[0] == '/' {
        return part.to_owned();
    }
    let mut r = base.to_owned();
    if !(b.len() == 0 || b[b.len() - 1] == '/') {
        crate::text::push_char(&mut r, '/');
    }
    crate::text::append_str(&mut r, part);
    r
}

/// The generated-output directory of environment `env`: `.cuet/ENV` in the
/// target module's directory.
pub fn environment_dir(workspace: &Workspace, env: &str) -> (r: String)
    ensures
        r@ == path_join_text(path_join_text(workspace@.target_dir, crate::expression::OUTPUT_FOLDER_NAME@), env@),
{
    let folder = path_join(workspace.target_dir(), crate::expression::OUTPUT_FOLDER_NAME);
    path_join(folder.as_str(), env)
}

/// How a module at `relative` below the root is listed: `.` for the root itself.
pub fn module_entry(relative: &str) -> (r: String)
    ensures
        r@ == if relative@.len() == 0 {
            "."@
        } else {
            relative@
        },
{
    if relative.is_empty() {
        ".".to_owned()
    } else {
        relative.to_owned()
    }
}

/// The directory names that module discovery does not descend into.
pub open spec fn ignored_directory(name: Seq<char>) -> bool {
    name == ".cuet"@ || name == ".git"@ || name == "target"@
}

/// Whether module discovery skips a directory with this name.
pub fn is_ignored_directory(name: &str) -> (r: bool)
    ensures
        r == ignored_directory(name@),
{
    crate::text::str_equal(name, ".cuet") || crate::text::str_equal(name, ".git")
        || crate::text::str_equal(name, "target")
}

} // verus!
