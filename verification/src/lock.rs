//! The single instance lock of the service: where its file lives and what a
//! refused instance learns about the holder.

use vstd::prelude::*;

use crate::text::{decimal, push_decimal, push_str};

verus! {

/// The file the service holds its lock on, under the runtime directory.
pub const LOCK_FILE: &'static str = "xfce4-niri-service.lock";

/// The runtime directory: `$XDG_RUNTIME_DIR`, else a per-user directory
/// under `/tmp`.
pub open spec fn runtime_dir_of(xdg_runtime_dir: Option<Seq<char>>, uid: u32) -> Seq<char> {
    match xdg_runtime_dir {
        Some(d) => d,
        None => "/tmp/xfce4-niri-"@ + decimal(uid as nat),
    }
}

/// The path of `name` in the runtime directory; `xdg_runtime_dir` is the
/// variable's value, `None` when it is unset.
pub fn runtime_file(xdg_runtime_dir: Option<&str>, uid: u32, name: &str) -> (r: String)
    ensures
        r@ == runtime_dir_of(
            match xdg_runtime_dir {
                Some(d) => Some(d@),
                None => None,
            },
            uid,
        ) + seq!['/'] + name@,
{
    let mut r = match xdg_runtime_dir {
        Some(d) => d.to_owned(),
        None => {
            let mut r = "/tmp/xfce4-niri-".to_owned();
            push_decimal(&mut r, uid as u64);
            r
        },
    };
    r.push('/');
    push_str(&mut r, name);
    r
}

/// `Path::join(dir, name)`: `name` alone when it is absolute, else `name`
/// under `dir`.
pub open spec fn path_join(dir: Seq<char>, name: Seq<char>) -> Seq<char> {
    if name.len() > 0 && name[0] == '/' {
        name
    } else {
        crate::program::joined(dir, name)
    }
}

/// `Path::join(dir, name)`.
pub fn join_path(dir: &str, name: &str) -> (r: String)
    ensures
        r@ == path_join(dir@, name@),
{
    let nv = crate::text::chars_of(name);
    if nv.len() > 0 && nv[0] == '/' {
        return name.to_owned();
    }
    let dv = crate::text::chars_of(dir);
    if dv.len() == 0 {
        return name.to_owned();
    }
    let mut r = dir.to_owned();
    if dv[dv.len() - 1] != '/' {
        r.push('/');
    }
    push_str(&mut r, name);
    r
}

/// Where the tools keep a runtime file: `file_name` (the lock file when
/// `None`) joined onto the runtime directory. `xdg_runtime_dir` is the
/// variable's value, `None` when it is unset; `uid` is the user's id.
pub fn get_safe_path(xdg_runtime_dir: Option<&str>, uid: u32, file_name: Option<&str>) -> (r: String)
    ensures
        r@ == path_join(
            runtime_dir_of(
                match xdg_runtime_dir {
                    Some(d) => Some(d@),
                    None => None,
                },
                uid,
            ),
            match file_name {
                Some(n) => n@,
                None => LOCK_FILE@,
            },
        ),
{
    let name: &str = match file_name {
        Some(n) => n,
        None => LOCK_FILE,
    };
    let dir = match xdg_runtime_dir {
        Some(d) => d.to_owned(),
        None => {
            let mut r = "/tmp/xfce4-niri-".to_owned();
            push_decimal(&mut r, uid as u64);
            r
        },
    };
    join_path(dir.as_str(), name)
}

/// The error a second instance gets, naming the pid the lock file holds.
pub fn refusal_message(holder: &str) -> (r: String)
    ensures
        r@ == "Another instance running, pid:"@ + holder@,
{
    let mut r = "Another instance running, pid:".to_owned();
    push_str(&mut r, holder);
    r
}

/// Tells a refused `acquire` the holder's pid: a requested report (`Some`)
/// is replaced by the pid, no report is ever asked for on the caller's
/// behalf.
pub fn report_holder(locked_by: &mut Option<String>, holder: &str)
    ensures
        match *old(locked_by) {
            Some(_) => match *final(locked_by) {
                Some(s) => s@ == holder@,
                None => false,
            },
            None => *final(locked_by) is None,
        },
{
    if locked_by.is_some() {
        *locked_by = Some(holder.to_owned());
    }
}

/// Tells `is_locked` the holder's pid: read into a requested report
/// (`Some`), after whatever it already holds; no report is made on the
/// caller's behalf.
pub fn append_holder(locked_by: &mut Option<String>, holder: &str)
    ensures
        match *old(locked_by) {
            Some(s0) => match *final(locked_by) {
                Some(s) => s@ == s0@ + holder@,
                None => false,
            },
            None => *final(locked_by) is None,
        },
{
    match locked_by {
        Some(s) => {
            push_str(s, holder);
        },
        None => {},
    }
}

} // verus!

verus! {

/// The uid `id -u` printed: its output trimmed, read as a `u32`, `0` when
/// there is no such output (`None`) or it is no number.
pub fn uid_from_output(stdout: Option<&str>) -> (r: u32)
    ensures
        r == match stdout {
            Some(s) => match crate::text::parse_u32(crate::text::trim(s@)) {
                Some(u) => u,
                None => 0u32,
            },
            None => 0u32,
        },
{
    match stdout {
        Some(s) => {
            let v = crate::text::chars_of(s);
            let n = v.len();
            assert(v@.subrange(0, n as int) =~= v@);
            let (a, b) = crate::text::trim_bounds(&v, 0, n);
            match crate::text::parse_u32_range(&v, a, b) {
                Some(u) => u,
                None => 0,
            }
        },
        None => 0,
    }
}

} // verus!
