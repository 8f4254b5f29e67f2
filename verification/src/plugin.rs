//! The plugin's own decisions around Zellij events: control pipes, pane ids in click
//! actions, the permission queue, and where an external template is mounted from.

use vstd::prelude::*;
use crate::click::ClickAction;
use crate::polls::text_at;
use crate::runtime::PaneId;
use crate::text::{chars_of, parse_decimal, parse_unsigned, push_text, same_text, string_of};
use crate::text_map::{TextMap, insert_entry, lemma_insert_sorted};
use std::collections::VecDeque;

verus! {

/// Name of the pipe that asks for a refresh.
pub const REFRESH_PIPE_NAME: &'static str = "agenthreads:refresh";

/// Name of the pipe that toggles the sidebar's visibility.
pub const TOGGLE_PIPE_NAME: &'static str = "agenthreads:toggle";

/// A control message on a plugin pipe.
#[derive(Clone, Copy, Debug, PartialEq, Eq, Structural)]
pub enum ControlPipe {
    Refresh,
    Toggle,
}

/// Recognises the control pipes by name.
pub fn control_pipe(name: &str) -> (r: Option<ControlPipe>)
    ensures
        r == if name@ == REFRESH_PIPE_NAME@ {
            Some(ControlPipe::Refresh)
        } else if name@ == TOGGLE_PIPE_NAME@ {
            Some(ControlPipe::Toggle)
        } else {
            None
        },
{
    if same_text(name, REFRESH_PIPE_NAME) {
        Some(ControlPipe::Refresh)
    } else if same_text(name, TOGGLE_PIPE_NAME) {
        Some(ControlPipe::Toggle)
    } else {
        None
    }
}

/// The pane a click action names: `terminal_N` or a bare `N` is terminal `N`, `plugin_N` is
/// plugin `N`.
pub open spec fn pane_id_of(value: Seq<char>) -> Option<PaneId> {
    if value.len() >= 9 && value.take(9) == "terminal_"@ {
        match parse_unsigned(value.skip(9), u32::MAX as nat) {
            Some(n) => Some(PaneId::Terminal(n as u32)),
            None => None,
        }
    } else if value.len() >= 7 && value.take(7) == "plugin_"@ {
        match parse_unsigned(value.skip(7), u32::MAX as nat) {
            Some(n) => Some(PaneId::Plugin(n as u32)),
            None => None,
        }
    } else {
        match parse_unsigned(value, u32::MAX as nat) {
            Some(n) => Some(PaneId::Terminal(n as u32)),
            None => None,
        }
    }
}

fn has_prefix(v: &Vec<char>, p: &str) -> (r: bool)
    ensures
        r == (v@.len() >= p@.len() && v@.take(p@.len() as int) == p@),
{
    let pv = chars_of(p);
    if v.len() < pv.len() {
        return false;
    }
    let mut i: usize = 0;
    while i < pv.len()
        invariant
            i <= pv@.len(),
            pv@ == p@,
            pv@.len() <= v@.len(),
            forall|j: int| 0 <= j < i ==> v@[j] == pv@[j],
        decreases pv@.len() - i,
    {
        if v[i] != pv[i] {
            assert(v@.take(pv@.len() as int)[i as int] != pv@[i as int]);
            return false;
        }
        i = i + 1;
    }
    assert(v@.take(pv@.len() as int) =~= pv@);
    true
}

fn tail_from(v: &Vec<char>, k: usize) -> (r: Vec<char>)
    requires
        k <= v@.len(),
    ensures
        r@ == v@.skip(k as int),
{
    let mut r: Vec<char> = Vec::new();
    let mut i: usize = k;
    while i < v.len()
        invariant
            k <= i <= v@.len(),
            r@ == v@.subrange(k as int, i as int),
        decreases v@.len() - i,
    {
        r.push(v[i]);
        assert(r@ =~= v@.subrange(k as int, i + 1));
        i = i + 1;
    }
    assert(r@ =~= v@.skip(k as int));
    r
}

/// Reads the pane a click action names.
pub fn parse_pane_id(value: &str) -> (r: Option<PaneId>)
    ensures
        r == pane_id_of(value@),
{
    proof {
        reveal_strlit("terminal_");
        reveal_strlit("plugin_");
    }
    let v = chars_of(value);
    if has_prefix(&v, "terminal_") {
        let rest = tail_from(&v, 9);
        return match parse_decimal(&rest, u32::MAX as u64) {
            Some(n) => Some(PaneId::Terminal(n as u32)),
            None => None,
        };
    }
    if has_prefix(&v, "plugin_") {
        let rest = tail_from(&v, 7);
        return match parse_decimal(&rest, u32::MAX as u64) {
            Some(n) => Some(PaneId::Plugin(n as u32)),
            None => None,
        };
    }
    match parse_decimal(&v, u32::MAX as u64) {
        Some(n) => Some(PaneId::Terminal(n as u32)),
        None => None,
    }
}

/// A permission request the plugin is waiting on.
#[derive(Clone, Copy, Debug, PartialEq, Eq, Structural)]
pub enum PermissionRequestKind {
    Base,
}

/// Takes the oldest pending permission request; an answer nobody waits for is taken as the
/// base request.
pub fn finish_pending_permission(pending: &mut VecDeque<PermissionRequestKind>) -> (r: PermissionRequestKind)
    ensures
        old(pending)@.len() == 0 ==> r == PermissionRequestKind::Base && final(pending)@.len() == 0,
        old(pending)@.len() > 0 ==> r == old(pending)@[0] && final(pending)@ == old(pending)@.drop_first(),
{
    match pending.pop_front() {
        Some(k) => k,
        None => PermissionRequestKind::Base,
    }
}

/// The action under a click in a frame's per-cell action grid; a negative row hits nothing.
pub open spec fn action_in_grid(grid: Seq<Vec<Option<ClickAction>>>, row: int, col: int) -> Option<ClickAction> {
    if 0 <= row < grid.len() && 0 <= col < grid[row]@.len() {
        grid[row]@[col]
    } else {
        None
    }
}

/// The action under a click.
pub fn clicked_action(grid: &Vec<Vec<Option<ClickAction>>>, row: isize, col: usize) -> (r: Option<ClickAction>)
    ensures
        r == action_in_grid(grid@, row as int, col as int),
{
    if row < 0 {
        return None;
    }
    let r0 = row as usize;
    if r0 >= grid.len() || col >= grid[r0].len() {
        return None;
    }
    match &grid[r0][col] {
        Some(a) => Some(crate::click::copy_action(a)),
        None => None,
    }
}

/// The rest of a path after a leading `~` component, as `Path::strip_prefix("~")` gives it.
pub uninterp spec fn tilde_rest(path: Seq<char>) -> Option<Seq<char>>;

/// `base` joined with `path`, as `Path::join` gives it.
pub uninterp spec fn joined_path(base: Seq<char>, path: Seq<char>) -> Seq<char>;

/// The parent of a path, as `Path::parent` gives it.
pub uninterp spec fn path_parent(path: Seq<char>) -> Option<Seq<char>>;

/// The last component of a path when it is a name, as `Path::file_name` gives it.
pub uninterp spec fn path_file_name(path: Seq<char>) -> Option<Seq<char>>;

/// `Path::new(path).strip_prefix("~")`, as text. Named `tilde_rest(path@)`.
#[verifier::external_body]
fn strip_tilde(path: &str) -> (r: Option<String>)
    ensures
        match r {
            Some(s) => tilde_rest(path@) == Some(s@),
            None => tilde_rest(path@) is None,
        },
{
    std::path::Path::new(path).strip_prefix("~").ok().map(|p| p.to_string_lossy().into_owned())
}

/// `Path::new(base).join(path)`, as text. Named `joined_path(base@, path@)`.
#[verifier::external_body]
fn join_path(base: &str, path: &str) -> (r: String)
    ensures
        r@ == joined_path(base@, path@),
{
    std::path::Path::new(base).join(path).to_string_lossy().into_owned()
}

/// `Path::new(path).parent()`, as text. Named `path_parent(path@)`.
#[verifier::external_body]
fn parent_of(path: &str) -> (r: Option<String>)
    ensures
        match r {
            Some(s) => path_parent(path@) == Some(s@),
            None => path_parent(path@) is None,
        },
{
    std::path::Path::new(path).parent().map(|p| p.to_string_lossy().into_owned())
}

/// `Path::new(path).file_name()`, as text. Named `path_file_name(path@)`.
#[verifier::external_body]
fn file_name_of(path: &str) -> (r: Option<String>)
    ensures
        match r {
            Some(s) => path_file_name(path@) == Some(s@),
            None => path_file_name(path@) is None,
        },
{
    std::path::Path::new(path).file_name().map(|p| p.to_string_lossy().into_owned())
}

/// Whether a path is relative: on Unix, whether it does not start at the root.
pub open spec fn is_relative(path: Seq<char>) -> bool {
    !(path.len() > 0 && path[0] == '/')
}

/// An external template waiting for its folder to be mounted.
pub struct PendingTemplate {
    /// The host folder that holds the template.
    pub host_folder: String,
    /// The plugin configuration with `template_file` naming the template inside the mount.
    pub configuration: TextMap<String>,
}

/// The configured template file resolved against the home and configuration folders: `~`
/// expands to the home folder, a relative path is taken from the Zellij configuration
/// folder (or `.config/zellij` in the home folder).
pub open spec fn resolved_template(file: Seq<char>, home: Option<Seq<char>>, config_dir: Option<Seq<char>>) -> Result<Seq<char>, Seq<char>> {
    match tilde_rest(file) {
        Some(rest) => match home {
            Some(h) => Ok(joined_path(h, rest)),
            None => Err("cannot expand template path without a home directory"@),
        },
        None => if is_relative(file) {
            match config_dir {
                Some(c) => Ok(joined_path(c, file)),
                None => match home {
                    Some(h) => Ok(joined_path(joined_path(h, ".config/zellij"@), file)),
                    None => Err("relative template_file requires ZELLIJ_CONFIG_DIR or HOME"@),
                },
            }
        } else {
            Ok(file)
        },
    }
}

/// The view of an optional string slice.
pub open spec fn opt_str(o: Option<&str>) -> Option<Seq<char>> {
    match o {
        Some(s) => Some(s@),
        None => None,
    }
}

/// Whether a configuration asks for an external template: it names a `template_file` and
/// no inline `template`.
pub fn external_template_requested(configuration: &TextMap<String>) -> (r: bool)
    requires
        configuration.wf(),
    ensures
        r == (text_at(configuration@, "template_file"@) is Some && text_at(configuration@, "template"@) is None),
{
    match configuration.get("template_file") {
        Some(_) => match configuration.get("template") {
            Some(_) => false,
            None => true,
        },
        None => false,
    }
}

/// Prepares an external template for mounting: the folder that holds the configured
/// `template_file`, and the configuration with `template_file` naming the file at the root of
/// that mount.
pub fn prepare_external_template(
    configuration: TextMap<String>,
    home: Option<&str>,
    config_dir: Option<&str>,
) -> (r: Result<PendingTemplate, String>)
    requires
        configuration.wf(),
    ensures
        match text_at(configuration@, "template_file"@) {
            None => r matches Err(e) && e@ == "template_file is missing"@,
            Some(file) => match resolved_template(file, opt_str(home), opt_str(config_dir)) {
                Err(m) => r matches Err(e) && e@ == m,
                Ok(path) => match path_parent(path) {
                    None => r matches Err(e) && e@ == "template_file has no parent directory: "@ + path,
                    Some(parent) => if parent.len() == 0 {
                        r matches Err(e) && e@ == "template_file has no parent directory: "@ + path
                    } else {
                        match path_file_name(path) {
                            None => r matches Err(e) && e@ == "template_file has no file name: "@ + path,
                            Some(entry) => r matches Ok(p) && p.host_folder@ == parent
                                && p.configuration.wf()
                                && crate::polls::text_entries(p.configuration@) == insert_entry(
                                    crate::polls::text_entries(configuration@),
                                    "template_file"@,
                                    joined_path("/"@, entry),
                                ),
                        }
                    }
                },
            },
        },
{
    let mut configuration = configuration;
    let file = match configuration.get("template_file") {
        Some(f) => f.clone(),
        None => {
            return Err("template_file is missing".to_owned());
        },
    };
    let fv = chars_of(file.as_str());
    let path = match strip_tilde(file.as_str()) {
        Some(rest) => match home {
            Some(h) => join_path(h, rest.as_str()),
            None => {
                return Err("cannot expand template path without a home directory".to_owned());
            },
        },
        None => {
            if fv.len() == 0 || fv[0] != '/' {
                match config_dir {
                    Some(c) => join_path(c, file.as_str()),
                    None => match home {
                        Some(h) => {
                            let base = join_path(h, ".config/zellij");
                            join_path(base.as_str(), file.as_str())
                        },
                        None => {
                            return Err("relative template_file requires ZELLIJ_CONFIG_DIR or HOME".to_owned());
                        },
                    },
                }
            } else {
                file
            }
        },
    };
    let parent = match parent_of(path.as_str()) {
        Some(p) => p,
        None => {
            let mut e: Vec<char> = Vec::new();
            push_text(&mut e, "template_file has no parent directory: ");
            push_text(&mut e, path.as_str());
            return Err(string_of(&e));
        },
    };
    let pv = chars_of(parent.as_str());
    if pv.len() == 0 {
        let mut e: Vec<char> = Vec::new();
        push_text(&mut e, "template_file has no parent directory: ");
        push_text(&mut e, path.as_str());
        return Err(string_of(&e));
    }
    let entry = match file_name_of(path.as_str()) {
        Some(n) => n,
        None => {
            let mut e: Vec<char> = Vec::new();
            push_text(&mut e, "template_file has no file name: ");
            push_text(&mut e, path.as_str());
            return Err(string_of(&e));
        },
    };
    let mounted = join_path("/", entry.as_str());
    let ghost before = configuration@;
    proof {
        crate::text_map::lemma_map_insert(before, "template_file"@, mounted, |s: String| s@);
        lemma_insert_sorted(before, "template_file"@, mounted);
    }
    configuration.insert("template_file".to_owned(), mounted);
    assert(crate::polls::text_entries(configuration@) =~= crate::text_map::map_entries(configuration@, |s: String| s@));
    assert(crate::polls::text_entries(before) =~= crate::text_map::map_entries(before, |s: String| s@));
    Ok(PendingTemplate { host_folder: parent, configuration })
}

} // verus!
