//! The plugin's side of template rendering: typed click actions decoded from template calls,
//! how a button is presented, the configuration a template host refuses, and the terminal
//! output of a rendered frame.

use vstd::prelude::*;
use crate::click::ClickAction;
use crate::text::{joined, push_text, same_text, string_of, views};
use crate::text_map::TextMap;

verus! {

/// The message a call with the wrong number of arguments is refused with.
pub open spec fn arity_error(name: Seq<char>) -> Seq<char> {
    name + " expects exactly one argument"@
}

/// Checks that an action call got exactly one argument.
pub fn one_argument(arg_count: usize, name: &str) -> (r: Result<(), String>)
    ensures
        arg_count == 1 <==> r is Ok,
        r matches Err(e) ==> e@ == arity_error(name@),
{
    if arg_count != 1 {
        let mut e: Vec<char> = Vec::new();
        push_text(&mut e, name);
        push_text(&mut e, " expects exactly one argument");
        return Err(string_of(&e));
    }
    Ok(())
}

/// Decodes `actions.switch_tab(tab)`, given the argument count and the first argument as an
/// unsigned integer when it is one.
pub fn decode_switch_tab(arg_count: usize, tab: Option<usize>) -> (r: Result<ClickAction, String>)
    ensures
        arg_count != 1 ==> (r matches Err(e) && e@ == arity_error("switch_tab"@)),
        arg_count == 1 ==> match tab {
            Some(t) if t <= u32::MAX => r == Ok::<ClickAction, String>(ClickAction::SwitchTab { tab: t as u32 }),
            _ => r matches Err(e) && e@ == "switch_tab expects one unsigned 32-bit integer"@,
        },
{
    if let Err(e) = one_argument(arg_count, "switch_tab") {
        return Err(e);
    }
    match tab {
        Some(t) => {
            if t <= u32::MAX as usize {
                Ok(ClickAction::SwitchTab { tab: t as u32 })
            } else {
                Err("switch_tab expects one unsigned 32-bit integer".to_owned())
            }
        },
        None => Err("switch_tab expects one unsigned 32-bit integer".to_owned()),
    }
}

/// Decodes `actions.switch_to_session(name)`, given the argument count and the first argument
/// as text when it is a string.
pub fn decode_switch_to_session(arg_count: usize, session: Option<&str>) -> (r: Result<ClickAction, String>)
    ensures
        arg_count != 1 ==> (r matches Err(e) && e@ == arity_error("switch_to_session"@)),
        arg_count == 1 ==> match session {
            Some(s) if s@.len() > 0 => r matches Ok(ClickAction::SwitchToSession { session: n }) && n@ == s@,
            _ => r matches Err(e) && e@ == "switch_to_session expects one non-empty session name"@,
        },
{
    if let Err(e) = one_argument(arg_count, "switch_to_session") {
        return Err(e);
    }
    match session {
        Some(s) => {
            let v = crate::text::chars_of(s);
            if v.len() > 0 {
                Ok(ClickAction::SwitchToSession { session: s.to_owned() })
            } else {
                Err("switch_to_session expects one non-empty session name".to_owned())
            }
        },
        None => Err("switch_to_session expects one non-empty session name".to_owned()),
    }
}

/// Decodes `actions.focus_pane(id)`, given the argument count and the first argument as text
/// when it is a string.
pub fn decode_focus_pane(arg_count: usize, pane: Option<&str>) -> (r: Result<ClickAction, String>)
    ensures
        arg_count != 1 ==> (r matches Err(e) && e@ == arity_error("focus_pane"@)),
        arg_count == 1 ==> match pane {
            Some(p) if p@.len() > 0 => r matches Ok(ClickAction::FocusPane { pane: n }) && n@ == p@,
            _ => r matches Err(e) && e@ == "focus_pane expects one non-empty pane ID"@,
        },
{
    if let Err(e) = one_argument(arg_count, "focus_pane") {
        return Err(e);
    }
    match pane {
        Some(p) => {
            let v = crate::text::chars_of(p);
            if v.len() > 0 {
                Ok(ClickAction::FocusPane { pane: p.to_owned() })
            } else {
                Err("focus_pane expects one non-empty pane ID".to_owned())
            }
        },
        None => Err("focus_pane expects one non-empty pane ID".to_owned()),
    }
}

/// Whether a button is drawn focused: as the template says, else when its action targets
/// the active tab, the current session or the focused pane.
pub open spec fn button_focus(
    focused: Option<bool>,
    action: ClickAction,
    active_tab: Option<u32>,
    active_session: Seq<char>,
    focused_pane: Option<Seq<char>>,
) -> bool {
    match focused {
        Some(f) => f,
        None => match action {
            ClickAction::SwitchTab { tab } => active_tab == Some(tab),
            ClickAction::SwitchToSession { session } => active_session == session@,
            ClickAction::FocusPane { pane } => focused_pane == Some(pane@),
        },
    }
}

/// Decides whether a button is drawn focused.
pub fn present_button(
    focused: Option<bool>,
    action: &ClickAction,
    active_tab: Option<u32>,
    active_session: &str,
    focused_pane: Option<&str>,
) -> (r: bool)
    ensures
        r == button_focus(focused, *action, active_tab, active_session@, match focused_pane {
            Some(p) => Some(p@),
            None => None,
        }),
{
    match focused {
        Some(f) => f,
        None => match action {
            ClickAction::SwitchTab { tab } => active_tab == Some(*tab),
            ClickAction::SwitchToSession { session } => same_text(active_session, session.as_str()),
            ClickAction::FocusPane { pane } => match focused_pane {
                Some(p) => same_text(p, pane.as_str()),
                None => false,
            },
        },
    }
}

/// The message the removed template loader settings are refused with.
pub open spec fn legacy_error() -> Seq<char> {
    "template_dir/template_name were removed; use template_file"@
}

/// Refuses a configuration that still uses `template_dir` or `template_name`.
pub fn reject_legacy_configuration(configuration: &TextMap<String>) -> (r: Result<(), String>)
    requires
        configuration.wf(),
    ensures
        r is Ok <==> !configuration.has("template_dir"@) && !configuration.has("template_name"@),
        r matches Err(e) ==> e@ == legacy_error(),
{
    if configuration.contains_key("template_dir") || configuration.contains_key("template_name") {
        return Err("template_dir/template_name were removed; use template_file".to_owned());
    }
    Ok(())
}

/// The escape sequence that clears a terminal line.
pub open spec fn clear_line() -> Seq<char> {
    seq!['\u{1b}', '[', '2', 'K']
}

/// The text drawn for a frame of `rows` rows: each row cleared, then its line if the frame
/// has one.
pub open spec fn frame_text(lines: Seq<Seq<char>>, rows: nat) -> Seq<char> {
    joined(Seq::new(rows, |r: int| clear_line() + if r < lines.len() {
        lines[r]
    } else {
        Seq::empty()
    }), seq!['\n'])
}

/// The views of a sequence of strings.
pub open spec fn line_views(s: Seq<String>) -> Seq<Seq<char>> {
    s.map_values(|x: String| x@)
}

/// The terminal output that paints a frame's lines into `rows` rows.
pub fn terminal_output(lines: &Vec<String>, rows: usize) -> (r: String)
    ensures
        r@ == frame_text(line_views(lines@), rows as nat),
{
    let ghost ls = line_views(lines@);
    let ghost all = Seq::new(rows as nat, |r: int| clear_line() + if r < ls.len() {
        ls[r]
    } else {
        Seq::empty()
    });
    let mut parts: Vec<Vec<char>> = Vec::new();
    let mut row: usize = 0;
    while row < rows
        invariant
            row <= rows,
            ls == line_views(lines@),
            all == Seq::new(rows as nat, |r: int| clear_line() + if r < ls.len() {
                ls[r]
            } else {
                Seq::empty()
            }),
            views(parts@) == all.take(row as int),
        decreases rows - row,
    {
        let mut line: Vec<char> = Vec::new();
        line.push('\u{1b}');
        line.push('[');
        line.push('2');
        line.push('K');
        if row < lines.len() {
            push_text(&mut line, lines[row].as_str());
        }
        assert(line@ =~= all[row as int]);
        let ghost before = views(parts@);
        let ghost lv = line@;
        parts.push(line);
        assert(views(parts@) =~= before.push(lv));
        assert(views(parts@) =~= all.take(row + 1));
        row = row + 1;
    }
    assert(all.take(row as int) =~= all);
    let sep = vec!['\n'];
    assert(sep@ =~= seq!['\n']);
    let text = crate::text::join(&parts, &sep);
    string_of(&text)
}

} // verus!
