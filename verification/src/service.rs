//! The decisions of the remote services: which file a clipboard request may
//! send, and what the echo service answers.

use normalize_path::NormalizePath;
use vstd::prelude::*;

use crate::text::{append_str, chars_eq, chars_of, path_join, path_join_exec, string_of};

verus! {

/// What `normalize_path`'s `NormalizePath::normalize` makes of a path: its
/// `.` components dropped, each `..` taking away the component before it,
/// redundant separators collapsed (the file system is not consulted).
pub uninterp spec fn normalized_path(path: Seq<char>) -> Seq<char>;

/// `NormalizePath::normalize` from the normalize_path crate, on a path given
/// as text. Its result is named by `normalized_path`: it depends on the path
/// alone, and nothing more is claimed of it here.
#[verifier::external_body]
fn normalize(path: &str) -> (r: String)
    ensures
        r@ == normalized_path(path@),
{
    std::path::Path::new(path).normalize().to_string_lossy().into_owned()
}

/// What std's `Path::starts_with` says of two paths: `base` is a prefix of
/// `path`, whole components at a time.
pub uninterp spec fn path_starts_with(path: Seq<char>, base: Seq<char>) -> bool;

/// std's `Path::starts_with` on two paths given as text. Its result is named
/// by `path_starts_with`, a function of the two paths alone; nothing more is
/// claimed of it here.
#[verifier::external_body]
fn starts_with_path(path: &str, base: &str) -> (r: bool)
    ensures
        r == path_starts_with(path@, base@),
{
    std::path::Path::new(path).starts_with(base)
}

/// A path is absolute on Unix when it starts at the root.
pub open spec fn is_absolute(path: Seq<char>) -> bool {
    path.len() > 0 && path[0] == '/'
}

/// Why a clipboard request is refused.
#[derive(Debug, Clone, Copy, PartialEq, Eq, Structural)]
pub enum ClipboardRefusal {
    /// The clipboard proxy is not configured, or not enabled.
    Disabled,
    /// The request names no file.
    EmptyPath,
    /// The file is not given by an absolute path inside the project.
    OutsideProject,
}

/// The file a clipboard request may send, given its path once normalized and
/// whether that lies under the project root: only an absolute path does.
pub fn check_normalized(normalized: &str, under_root: bool) -> (r: Result<String, ClipboardRefusal>)
    ensures
        is_absolute(normalized@) && under_root ==> (r matches Ok(p) && p@ == normalized@),
        !(is_absolute(normalized@) && under_root) ==> r == Err::<String, ClipboardRefusal>(
            ClipboardRefusal::OutsideProject,
        ),
{
    let c = chars_of(normalized);
    if c.len() > 0 && c[0] == '/' && under_root {
        Ok(string_of(&c))
    } else {
        Err(ClipboardRefusal::OutsideProject)
    }
}

/// The file a clipboard request may send: the proxy must be enabled (`None`
/// when it is not configured), the path must not be empty, and once
/// normalized it must be absolute and inside the project root.
pub fn clipboard_file(enabled: Option<bool>, file_path: &str, project_root: &str) -> (r: Result<
    String,
    ClipboardRefusal,
>)
    ensures
        enabled != Some(true) ==> r == Err::<String, ClipboardRefusal>(ClipboardRefusal::Disabled),
        enabled == Some(true) && file_path@.len() == 0 ==> r == Err::<String, ClipboardRefusal>(
            ClipboardRefusal::EmptyPath,
        ),
        enabled == Some(true) && file_path@.len() > 0 ==> {
            let n = normalized_path(file_path@);
            &&& is_absolute(n) && path_starts_with(n, project_root@) ==> (r matches Ok(p) && p@ == n)
            &&& !(is_absolute(n) && path_starts_with(n, project_root@)) ==> r == Err::<
                String,
                ClipboardRefusal,
            >(ClipboardRefusal::OutsideProject)
        },
{
    match enabled {
        Some(true) => {},
        _ => {
            return Err(ClipboardRefusal::Disabled);
        },
    }
    if file_path.is_empty() {
        return Err(ClipboardRefusal::EmptyPath);
    }
    let n = normalize(file_path);
    let under = starts_with_path(n.as_str(), project_root);
    check_normalized(n.as_str(), under)
}

/// What the echo service answers to a message.
pub fn echo_message(message: &str) -> (r: String)
    ensures
        r@ == "helloworld, "@ + message@ + "!"@,
{
    let mut v: Vec<char> = Vec::new();
    append_str(&mut v, "helloworld, ");
    append_str(&mut v, message);
    append_str(&mut v, "!");
    string_of(&v)
}

/// The running mode of the configuration: solutions being worked on are
/// linked into one directory.
pub struct RunningMode {
    pub enable: bool,
    /// The directory the links go to.
    pub running_path: String,
    /// Remove the links of the previous batch before linking.
    pub remove_old_linkers: bool,
}

/// What to do on the file system to link a solution into the running
/// directory.
pub struct LinkPlan {
    /// Remove the old links in this directory first.
    pub remove_old_in: Option<String>,
    /// The file to link to.
    pub link_from: String,
    /// Where the link goes.
    pub link_to: String,
}

/// How a solution is linked into the running directory: nothing when the
/// running mode is off; else a link `running_path/name` to `src_path`, after
/// removing the old links when the mode asks for it and the batch is the one
/// linked last (`recent_uuid`, which then holds `uuid`).
pub fn recreated_ref_in_running(
    mode: Option<&RunningMode>,
    recent_uuid: &mut String,
    uuid: &str,
    src_path: &str,
    name: &str,
) -> (r: Option<LinkPlan>)
    ensures
        match mode {
            None => r is None && final(recent_uuid)@ == old(recent_uuid)@,
            Some(m) => if !m.enable {
                r is None && final(recent_uuid)@ == old(recent_uuid)@
            } else {
                let clear = m.remove_old_linkers && old(recent_uuid)@ == uuid@;
                &&& r matches Some(p)
                &&& p.link_from@ == src_path@
                &&& p.link_to@ == path_join(m.running_path@, name@)
                &&& clear ==> (p.remove_old_in matches Some(d) && d@ == m.running_path@)
                &&& !clear ==> p.remove_old_in is None
                &&& clear ==> final(recent_uuid)@ == uuid@
                &&& !clear ==> final(recent_uuid)@ == old(recent_uuid)@
            },
        },
{
    let m = match mode {
        Some(m) => m,
        None => {
            return None;
        },
    };
    if !m.enable {
        return None;
    }
    let recent = chars_of(recent_uuid.as_str());
    let id = chars_of(uuid);
    let remove_old_in = if m.remove_old_linkers && chars_eq(&recent, &id) {
        *recent_uuid = string_of(&id);
        Some(m.running_path.clone())
    } else {
        None
    };
    let to = path_join_exec(&chars_of(m.running_path.as_str()), &chars_of(name));
    Some(
        LinkPlan {
            remove_old_in,
            link_from: string_of(&chars_of(src_path)),
            link_to: string_of(&to),
        },
    )
}

} // verus!
