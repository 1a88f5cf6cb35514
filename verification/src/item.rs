//! Autostart entries as the list shows them, and the rules for
//! changing one: when an entry is on, how it sorts, how it is drawn, and
//! what a change of its state does to the user's and the system's copies.

use vstd::prelude::*;

use crate::run_hook::RunHook;
use crate::text::{
    chars_of, decimal, eq_ascii_nocase, eq_ignore_ascii_case, lemma_views_push, push_decimal,
    push_str, views,
};

verus! {

/// Whether one of `list` names `desktop`, ASCII case ignored.
pub open spec fn names_desktop(list: Seq<Seq<char>>, desktop: Seq<char>) -> bool {
    exists|i: int| 0 <= i < list.len() && eq_ascii_nocase(#[trigger] list[i], desktop)
}

/// Whether an entry with this `OnlyShowIn` is meant for `desktop`: no list
/// at all means every desktop.
pub open spec fn shown_in(only_show_in: Seq<Seq<char>>, desktop: Seq<char>) -> bool {
    only_show_in.len() == 0 || names_desktop(only_show_in, desktop)
}

/// Whether an entry is on: not hidden, and either meant for this desktop or
/// opted in with `X-XFCE-Autostart-Override`.
pub open spec fn is_on(hidden: bool, show_in_xfce: bool, show_in_override: bool) -> bool {
    !hidden && (show_in_xfce || show_in_override)
}

/// Whether one of `list` names `desktop`, ASCII case ignored.
pub fn lists_desktop(list: &[String], desktop: &str) -> (r: bool)
    ensures
        r == names_desktop(views(list@), desktop@),
{
    let mut i: usize = 0;
    while i < list.len()
        invariant
            i <= list@.len(),
            forall|j: int| 0 <= j < i ==> !eq_ascii_nocase(#[trigger] views(list@)[j], desktop@),
        decreases list@.len() - i,
    {
        if eq_ignore_ascii_case(list[i].as_str(), desktop) {
            assert(views(list@)[i as int] == list@[i as int]@);
            return true;
        }
        assert(views(list@)[i as int] == list@[i as int]@);
        i = i + 1;
    }
    false
}

/// Whether an entry with this `OnlyShowIn` is meant for `desktop`.
pub fn show_in_desktop(only_show_in: &[String], desktop: &str) -> (r: bool)
    ensures
        r == shown_in(views(only_show_in@), desktop@),
{
    only_show_in.len() == 0 || lists_desktop(only_show_in, desktop)
}

/// What an autostart `.desktop` file says, as read through `XfceRc`.
///
/// `exec_markup` is the `Exec` command already escaped for Pango markup.
pub struct EntryRecord {
    pub kind: Option<String>,
    pub name: Option<String>,
    pub icon: Option<String>,
    pub comment: Option<String>,
    pub exec_markup: String,
    pub hidden: bool,
    pub run_hook: i32,
    pub show_in_override: bool,
    pub not_show_in: Vec<String>,
    pub only_show_in: Vec<String>,
    pub try_exec: Option<String>,
}

/// The list's verdict on a record: `Some(show_in_xfce)` when the
/// entry is listed, `None` when it is skipped — not an `Application`, kept
/// off `desktop` by `NotShowIn`, or with a `TryExec` binary missing.
pub open spec fn listed_on(r: EntryRecord, desktop: Seq<char>, try_exec_found: bool) -> Option<
    bool,
> {
    if !(r.kind matches Some(k) && eq_ascii_nocase(k@, "Application"@)) {
        None
    } else if names_desktop(views(r.not_show_in@), desktop) {
        None
    } else if r.try_exec is Some && !try_exec_found {
        None
    } else {
        Some(shown_in(views(r.only_show_in@), desktop))
    }
}

/// The string an optional value reads as, empty when unset.
pub open spec fn or_empty(s: Option<String>) -> Seq<char> {
    match s {
        Some(x) => x@,
        None => seq![],
    }
}

/// An entry's tooltip: the command, in markup.
pub open spec fn tooltip_of(exec_markup: Seq<char>) -> Seq<char> {
    "<b>Command:</b> "@ + exec_markup
}

/// One autostart entry of the list: a `.desktop` file as read
/// through `XfceRc`, so a user file overriding a system one is one entry.
pub struct Item {
    pub name: String,
    /// The icon's name; the list draws it as a themed icon.
    pub icon: String,
    pub comment: String,
    pub rel_path: String,
    pub hidden: bool,
    pub tooltip: String,
    pub run_hook: RunHook,
    pub show_in_xfce: bool,
    pub show_in_override: bool,
}

fn owned_or(s: &Option<String>, fallback: &str) -> (r: String)
    ensures
        r@ == match s {
            Some(x) => x@,
            None => fallback@,
        },
{
    match s {
        Some(x) => x.clone(),
        None => fallback.to_owned(),
    }
}

impl Item {
    /// The entry at `rel_path`, from what was read of it: `None` for any
    /// entry the list skips. `try_exec_found` is whether `TryExec`'s binary,
    /// if the record names one, exists.
    pub fn new(
        rel_path: &str,
        desktop: &str,
        default_icon: &str,
        record: &EntryRecord,
        try_exec_found: bool,
    ) -> (r: Option<Item>)
        ensures
            match r {
                None => listed_on(*record, desktop@, try_exec_found) is None,
                Some(item) => {
                    &&& listed_on(*record, desktop@, try_exec_found) == Some(item.show_in_xfce)
                    &&& item.show_in_xfce == (record.only_show_in@.len() == 0 || names_desktop(
                        views(record.only_show_in@),
                        desktop@,
                    ))
                    &&& item.name@ == or_empty(record.name)
                    &&& item.icon@ == match record.icon {
                        Some(x) => x@,
                        None => default_icon@,
                    }
                    &&& item.comment@ == or_empty(record.comment)
                    &&& item.rel_path@ == rel_path@
                    &&& item.hidden == record.hidden
                    &&& item.tooltip@ == tooltip_of(record.exec_markup@)
                    &&& item.run_hook == RunHook::at(record.run_hook as int)
                    &&& item.show_in_override == record.show_in_override
                },
            },
    {
        let application = match &record.kind {
            Some(k) => eq_ignore_ascii_case(k.as_str(), "Application"),
            None => false,
        };
        if !application {
            return None;
        }
        if lists_desktop(&record.not_show_in, desktop) {
            return None;
        }
        if record.try_exec.is_some() && !try_exec_found {
            return None;
        }
        proof {
            reveal_strlit("");
        }
        let mut tooltip = "<b>Command:</b> ".to_owned();
        push_str(&mut tooltip, record.exec_markup.as_str());
        Some(
            Item {
                name: owned_or(&record.name, ""),
                icon: owned_or(&record.icon, default_icon),
                comment: owned_or(&record.comment, ""),
                rel_path: rel_path.to_owned(),
                hidden: record.hidden,
                tooltip,
                run_hook: RunHook::from_value(record.run_hook),
                show_in_xfce: show_in_desktop(&record.only_show_in, desktop),
                show_in_override: record.show_in_override,
            },
        )
    }

    /// Whether the entry is on: an entry not meant for this desktop needs the
    /// `X-XFCE-Autostart-Override` opt in on top of not being hidden.
    pub fn is_enabled(&self) -> (r: bool)
        ensures
            r == is_on(self.hidden, self.show_in_xfce, self.show_in_override),
    {
        Self::enabled(self.hidden, self.show_in_xfce, self.show_in_override)
    }

    /// The three keys `is_enabled` answers on, away from an item.
    pub fn enabled(hidden: bool, show_in_xfce: bool, show_in_override: bool) -> (r: bool)
        ensures
            r == is_on(hidden, show_in_xfce, show_in_override),
    {
        !hidden && (show_in_xfce || show_in_override)
    }
}

} // verus!

verus! {

/// Whether an entry can be removed, on the copies of it: `accessible[i]` is
/// whether the directory holding copy `i` can be written to. Removable only
/// while every one can; no copy at all leaves nothing to refuse.
pub fn removable(accessible: &[bool]) -> (r: bool)
    ensures
        r == (forall|i: int| 0 <= i < accessible@.len() ==> #[trigger] accessible@[i]),
{
    let mut i: usize = 0;
    while i < accessible.len()
        invariant
            i <= accessible@.len(),
            forall|j: int| 0 <= j < i ==> #[trigger] accessible@[j],
        decreases accessible@.len() - i,
    {
        if !accessible[i] {
            return false;
        }
        i = i + 1;
    }
    true
}

/// The markup of the name column: `name (comment)`, just `name` without a
/// comment, in italics when the entry is not meant for this desktop.
pub open spec fn markup_view(name: Seq<char>, comment: Seq<char>, show_in_xfce: bool) -> Seq<char> {
    let text = if comment.len() == 0 {
        name
    } else {
        name + " ("@ + comment + ")"@
    };
    if show_in_xfce {
        text
    } else {
        "<i>"@ + text + "</i>"@
    }
}

/// The markup of the name column, from the
/// name and comment already escaped for markup (an empty comment is none).
pub fn markup_of(name_markup: &str, comment_markup: &str, show_in_xfce: bool) -> (r: String)
    ensures
        r@ == markup_view(name_markup@, comment_markup@, show_in_xfce),
{
    let mut text = name_markup.to_owned();
    if !comment_markup.is_empty() {
        push_str(&mut text, " (");
        push_str(&mut text, comment_markup);
        push_str(&mut text, ")");
    }
    if show_in_xfce {
        text
    } else {
        let mut r = "<i>".to_owned();
        push_str(&mut r, text.as_str());
        push_str(&mut r, "</i>");
        r
    }
}

/// The list's default order: entries meant for this desktop first, then the
/// order of the names, `by_name`, as the locale collates them.
pub fn sort_default(a_show_in_xfce: bool, b_show_in_xfce: bool, by_name: std::cmp::Ordering) -> (r:
    std::cmp::Ordering)
    ensures
        a_show_in_xfce && !b_show_in_xfce ==> r == std::cmp::Ordering::Less,
        !a_show_in_xfce && b_show_in_xfce ==> r == std::cmp::Ordering::Greater,
        a_show_in_xfce == b_show_in_xfce ==> r == by_name,
{
    if a_show_in_xfce && !b_show_in_xfce {
        std::cmp::Ordering::Less
    } else if !a_show_in_xfce && b_show_in_xfce {
        std::cmp::Ordering::Greater
    } else {
        by_name
    }
}

/// What a user copy under `~/.config/autostart` exists to say over the
/// system file it shadows: the toggle of the first column and the trigger
/// of the last.
#[derive(Clone, Copy, Debug, PartialEq, Eq, Structural)]
pub struct State {
    pub enabled: bool,
    pub run_hook: RunHook,
}

/// The state one `.desktop` file gives an entry, read off that file alone.
pub open spec fn state_of(
    hidden: bool,
    only_show_in: Seq<Seq<char>>,
    desktop: Seq<char>,
    show_in_override: bool,
    run_hook: i32,
) -> State {
    State {
        enabled: is_on(hidden, shown_in(only_show_in, desktop), show_in_override),
        run_hook: RunHook::at(run_hook as int),
    }
}

/// `Item::file_state` on what was read of one file: `Hidden`, `OnlyShowIn`,
/// `X-XFCE-Autostart-Override` and `RunHook`, each with its fallback applied.
pub fn file_state(
    hidden: bool,
    only_show_in: &[String],
    desktop: &str,
    show_in_override: bool,
    run_hook: i32,
) -> (r: State)
    ensures
        r == state_of(hidden, views(only_show_in@), desktop@, show_in_override, run_hook),
{
    State {
        enabled: Item::enabled(hidden, show_in_desktop(only_show_in, desktop), show_in_override),
        run_hook: RunHook::from_value(run_hook),
    }
}

/// The first step of changing an entry's state.
#[derive(Clone, Copy, Debug, PartialEq, Eq, Structural)]
pub enum SetStateStep {
    /// The system file already gives the wanted state: the user copy goes
    /// (one already gone is fine).
    DropUserCopy,
    /// No user copy yet: copy the system file into place, then write it.
    CopySystemThenWrite,
    /// Write the user copy.
    WriteUserCopy,
    /// Neither copy exists.
    NotFound,
}

/// The first step of `set_state`: `system` is the state the shadowed
/// system copy gives (`None` when there is no system copy, `Some(None)`
/// when it cannot be read), `user_exists` whether the user copy is there.
pub open spec fn step_for(system: Option<Option<State>>, state: State, user_exists: bool) -> SetStateStep {
    if system == Some(Some(state)) {
        SetStateStep::DropUserCopy
    } else if !user_exists {
        match system {
            None => SetStateStep::NotFound,
            Some(_) => SetStateStep::CopySystemThenWrite,
        }
    } else {
        SetStateStep::WriteUserCopy
    }
}

/// The first step of `set_state`, on the shadowed system copy's state and
/// on whether the user copy exists.
pub fn set_state_step(system: Option<Option<State>>, state: State, user_exists: bool) -> (r:
    SetStateStep)
    ensures
        r == step_for(system, state, user_exists),
{
    let back_to_system = match system {
        Some(Some(s)) => s == state,
        _ => false,
    };
    if back_to_system {
        SetStateStep::DropUserCopy
    } else if !user_exists {
        match system {
            None => SetStateStep::NotFound,
            Some(_) => SetStateStep::CopySystemThenWrite,
        }
    } else {
        SetStateStep::WriteUserCopy
    }
}

/// The mode a fresh user copy gets: the system file's, made readable and
/// writable by the user, since the copy is about to be rewritten.
pub fn user_copy_mode(mode: u32) -> (r: u32)
    ensures
        r == mode | 0o600,
{
    mode | 0o600
}

/// The shadowed system copy of an entry: among every copy, in priority
/// order, the first that is not the user's.
pub open spec fn shadowed(files: Seq<Seq<char>>, user: Seq<char>) -> Option<Seq<char>>
    decreases files.len(),
{
    if files.len() == 0 {
        None
    } else if files[0] != user {
        Some(files[0])
    } else {
        shadowed(files.drop_first(), user)
    }
}

/// The highest priority copy of an entry that is not the user's one.
pub fn shadowed_copy(files: &[String], user: &str) -> (r: Option<String>)
    ensures
        match r {
            Some(x) => shadowed(views(files@), user@) == Some(x@),
            None => shadowed(views(files@), user@) is None,
        },
{
    let u = user.to_owned();
    let mut i: usize = 0;
    assert(views(files@).skip(0) =~= views(files@));
    while i < files.len()
        invariant
            i <= files@.len(),
            u@ == user@,
            shadowed(views(files@).skip(i as int), user@) == shadowed(views(files@), user@),
        decreases files@.len() - i,
    {
        let ghost rest = views(files@).skip(i as int);
        assert(rest[0] == files@[i as int]@);
        if files[i] != u {
            return Some(files[i].clone());
        }
        assert(rest.drop_first() =~= views(files@).skip(i + 1));
        i = i + 1;
    }
    None
}

/// A value written to a `.desktop` key.
#[derive(Clone, Debug)]
pub enum RcValue {
    Text(String),
    Flag(bool),
    Number(i32),
}

/// What a written value means.
pub enum RcValueView {
    Text(Seq<char>),
    Flag(bool),
    Number(int),
}

/// One key written through `XfceRc`.
#[derive(Clone, Debug)]
pub struct RcWrite {
    pub key: &'static str,
    pub value: RcValue,
}

/// What a list of writes means: each key with its value, in order.
pub open spec fn writes_view(w: Seq<RcWrite>) -> Seq<(Seq<char>, RcValueView)> {
    w.map_values(
        |x: RcWrite|
            (
                x.key@,
                match x.value {
                    RcValue::Text(s) => RcValueView::Text(s@),
                    RcValue::Flag(b) => RcValueView::Flag(b),
                    RcValue::Number(n) => RcValueView::Number(n as int),
                },
            ),
    )
}

proof fn lemma_writes_push(w: Seq<RcWrite>, x: RcWrite)
    ensures
        writes_view(w.push(x)) == writes_view(w).push(writes_view(seq![x])[0]),
{
    assert(writes_view(w.push(x)) =~= writes_view(w).push(writes_view(seq![x])[0]));
}

/// The keys a new entry is written with, in order.
pub open spec fn store_plan(name: Seq<char>, comment: Seq<char>, exec: Seq<char>, run_hook: RunHook) -> Seq<
    (Seq<char>, RcValueView),
> {
    seq![
        ("Encoding"@, RcValueView::Text("UTF-8"@)),
        ("Version"@, RcValueView::Text("0.1.0"@)),
        ("Type"@, RcValueView::Text("Application"@)),
        ("Name"@, RcValueView::Text(name)),
        ("Comment"@, RcValueView::Text(comment)),
        ("Exec"@, RcValueView::Text(exec)),
        ("StartupNotify"@, RcValueView::Flag(false)),
        ("Terminal"@, RcValueView::Flag(false)),
        ("Hidden"@, RcValueView::Flag(false)),
        ("RunHook"@, RcValueView::Number(run_hook.index())),
    ]
}

fn push_write(w: &mut Vec<RcWrite>, key: &'static str, value: RcValue)
    ensures
        writes_view(final(w)@) == writes_view(old(w)@).push(
            writes_view(seq![RcWrite { key, value }])[0],
        ),
{
    let x = RcWrite { key, value };
    proof {
        lemma_writes_push(w@, x);
    }
    w.push(x);
}

/// What `Item::store` writes into a new entry, in order: the whole of an
/// application entry, enabled and not run in a terminal. The writes stop at
/// the first one refused.
pub fn store_writes(name: &str, comment: &str, exec: &str, run_hook: RunHook) -> (r: Vec<RcWrite>)
    ensures
        writes_view(r@) == store_plan(name@, comment@, exec@, run_hook),
{
    let mut w: Vec<RcWrite> = Vec::new();
    push_write(&mut w, "Encoding", RcValue::Text("UTF-8".to_owned()));
    push_write(&mut w, "Version", RcValue::Text("0.1.0".to_owned()));
    push_write(&mut w, "Type", RcValue::Text("Application".to_owned()));
    push_write(&mut w, "Name", RcValue::Text(name.to_owned()));
    push_write(&mut w, "Comment", RcValue::Text(comment.to_owned()));
    push_write(&mut w, "Exec", RcValue::Text(exec.to_owned()));
    push_write(&mut w, "StartupNotify", RcValue::Flag(false));
    push_write(&mut w, "Terminal", RcValue::Flag(false));
    push_write(&mut w, "Hidden", RcValue::Flag(false));
    push_write(&mut w, "RunHook", RcValue::Number(run_hook.value()));
    assert(writes_view(w@) =~= store_plan(name@, comment@, exec@, run_hook));
    w
}

/// The keys a change of state writes into the user copy: `Hidden`, then
/// `X-XFCE-Autostart-Override` on an entry not meant for this desktop (the
/// only kind that key is read on), then `RunHook`.
pub open spec fn state_plan(show_in_xfce: bool, state: State) -> Seq<(Seq<char>, RcValueView)> {
    seq![("Hidden"@, RcValueView::Flag(!state.enabled))] + (if show_in_xfce {
        seq![]
    } else {
        seq![("X-XFCE-Autostart-Override"@, RcValueView::Flag(state.enabled))]
    }) + seq![("RunHook"@, RcValueView::Number(state.run_hook.index()))]
}

/// What `set_state` writes into the user copy, whose `OnlyShowIn` is
/// `only_show_in`. The writes stop at the first one refused.
pub fn state_writes(only_show_in: &[String], desktop: &str, state: State) -> (r: Vec<RcWrite>)
    ensures
        writes_view(r@) == state_plan(shown_in(views(only_show_in@), desktop@), state),
{
    let show_in_xfce = show_in_desktop(only_show_in, desktop);
    let mut w: Vec<RcWrite> = Vec::new();
    push_write(&mut w, "Hidden", RcValue::Flag(!state.enabled));
    if !show_in_xfce {
        push_write(&mut w, "X-XFCE-Autostart-Override", RcValue::Flag(state.enabled));
    }
    push_write(&mut w, "RunHook", RcValue::Number(state.run_hook.value()));
    assert(writes_view(w@) =~= state_plan(show_in_xfce, state));
    w
}

/// The relative path of the `n`th candidate for a new entry called `name`:
/// `autostart/<name>.desktop`, then `autostart/<name>-<n>.desktop`, with
/// every `/` of the name made a `-`.
pub open spec fn rel_path_view(name: Seq<char>, n: nat) -> Seq<char> {
    let safe = name.map_values(|c: char| if c == '/' { '-' } else { c });
    "autostart/"@ + safe + (if n == 0 {
        seq![]
    } else {
        seq!['-'] + decimal(n)
    }) + ".desktop"@
}

/// The `n`th relative path tried for a new entry called `name`; the first
/// one no config directory holds is taken.
pub fn rel_path_candidate(name: &str, n: u64) -> (r: String)
    ensures
        r@ == rel_path_view(name@, n as nat),
{
    let v = chars_of(name);
    let mut r = "autostart/".to_owned();
    let ghost r0 = r@;
    let mut i: usize = 0;
    while i < v.len()
        invariant
            i <= v@.len(),
            v@ == name@,
            r@ == r0 + v@.take(i as int).map_values(|c: char| if c == '/' { '-' } else { c }),
        decreases v@.len() - i,
    {
        let c = v[i];
        if c == '/' {
            r.push('-');
        } else {
            r.push(c);
        }
        i = i + 1;
        assert(r@ =~= r0 + v@.take(i as int).map_values(|c: char| if c == '/' { '-' } else { c }));
    }
    assert(v@.take(i as int) =~= v@);
    if n > 0 {
        r.push('-');
        push_decimal(&mut r, n);
    }
    push_str(&mut r, ".desktop");
    proof {
        if n == 0 {
            assert(r@ =~= rel_path_view(name@, n as nat));
        } else {
            assert(r@ =~= rel_path_view(name@, n as nat));
        }
    }
    r
}

} // verus!

verus! {

/// An entry read off one file is on exactly when the list would show it on:
/// the toggle a user copy is compared with is the one the list displays.
pub proof fn lemma_file_state_matches_toggle(
    hidden: bool,
    only_show_in: Seq<Seq<char>>,
    desktop: Seq<char>,
    show_in_override: bool,
    run_hook: i32,
)
    ensures
        state_of(hidden, only_show_in, desktop, show_in_override, run_hook).enabled == is_on(
            hidden,
            shown_in(only_show_in, desktop),
            show_in_override,
        ),
        state_of(hidden, only_show_in, desktop, show_in_override, run_hook).run_hook == RunHook::at(
            run_hook as int,
        ),
{
}

/// A hidden entry is off; an entry meant for this desktop is on unless
/// hidden; one meant for another desktop is on only with the override.
pub proof fn lemma_toggle_truth_table(hidden: bool, show_in_xfce: bool, show_in_override: bool)
    ensures
        hidden ==> !is_on(hidden, show_in_xfce, show_in_override),
        show_in_xfce ==> is_on(hidden, show_in_xfce, show_in_override) == !hidden,
        !show_in_xfce ==> is_on(hidden, show_in_xfce, show_in_override) == (!hidden
            && show_in_override),
{
}

/// A user copy is spent only once the system file agrees with the wanted
/// state on both the toggle and the trigger.
pub proof fn lemma_user_copy_dropped_only_on_agreement(
    system: Option<Option<State>>,
    state: State,
    user_exists: bool,
)
    ensures
        step_for(system, state, user_exists) == SetStateStep::DropUserCopy <==> (system matches Some(
            Some(s),
        ) && s.enabled == state.enabled && s.run_hook == state.run_hook),
{
    match system {
        Some(Some(s)) => {
            if s.enabled == state.enabled && s.run_hook == state.run_hook {
                assert(s == state);
            }
        },
        _ => {},
    }
}

/// The boolean a key reads as after `plan` was written over a file where it
/// read `prior`: the last flag written to it, else `prior`.
pub open spec fn flag_after(plan: Seq<(Seq<char>, RcValueView)>, key: Seq<char>, prior: bool) -> bool
    decreases plan.len(),
{
    if plan.len() == 0 {
        prior
    } else {
        match plan.last().1 {
            RcValueView::Flag(b) => if plan.last().0 == key {
                b
            } else {
                flag_after(plan.drop_last(), key, prior)
            },
            _ => flag_after(plan.drop_last(), key, prior),
        }
    }
}

/// The integer a key reads as after `plan` was written over a file where it
/// read `prior`: the last number written to it, else `prior`.
pub open spec fn number_after(plan: Seq<(Seq<char>, RcValueView)>, key: Seq<char>, prior: int) -> int
    decreases plan.len(),
{
    if plan.len() == 0 {
        prior
    } else {
        match plan.last().1 {
            RcValueView::Number(n) => if plan.last().0 == key {
                n
            } else {
                number_after(plan.drop_last(), key, prior)
            },
            _ => number_after(plan.drop_last(), key, prior),
        }
    }
}

/// What `set_state` writes makes the user copy read back as the state asked
/// for, whatever the copy said before: the toggle through `Hidden` (and the
/// override, for an entry kept off this desktop) and the trigger through
/// `RunHook`.
pub proof fn lemma_state_writes_read_back(
    only_show_in: Seq<Seq<char>>,
    desktop: Seq<char>,
    state: State,
    hidden: bool,
    show_in_override: bool,
    run_hook: int,
)
    ensures
        ({
            let show = shown_in(only_show_in, desktop);
            let plan = state_plan(show, state);
            &&& is_on(
                flag_after(plan, "Hidden"@, hidden),
                show,
                flag_after(plan, "X-XFCE-Autostart-Override"@, show_in_override),
            ) == state.enabled
            &&& RunHook::at(number_after(plan, "RunHook"@, run_hook)) == state.run_hook
        }),
{
    reveal_strlit("Hidden");
    reveal_strlit("RunHook");
    reveal_strlit("X-XFCE-Autostart-Override");
    let show = shown_in(only_show_in, desktop);
    let plan = state_plan(show, state);
    let hidden_w = ("Hidden"@, RcValueView::Flag(!state.enabled));
    let override_w = ("X-XFCE-Autostart-Override"@, RcValueView::Flag(state.enabled));
    let hook_w = ("RunHook"@, RcValueView::Number(state.run_hook.index()));
    assert("Hidden"@ != "RunHook"@) by {
        assert("Hidden"@.len() != "RunHook"@.len());
    }
    assert("X-XFCE-Autostart-Override"@ != "RunHook"@) by {
        assert("X-XFCE-Autostart-Override"@.len() != "RunHook"@.len());
    }
    assert("X-XFCE-Autostart-Override"@ != "Hidden"@) by {
        assert("X-XFCE-Autostart-Override"@.len() != "Hidden"@.len());
    }
    crate::run_hook::lemma_value_round_trip(state.run_hook);
    let p0 = seq![hidden_w];
    assert(p0.last() == hidden_w);
    assert(p0.drop_last() =~= Seq::<(Seq<char>, RcValueView)>::empty());
    assert(flag_after(p0, "Hidden"@, hidden) == !state.enabled);
    assert(flag_after(p0.drop_last(), "X-XFCE-Autostart-Override"@, show_in_override) == show_in_override);
    assert(flag_after(p0, "X-XFCE-Autostart-Override"@, show_in_override) == show_in_override);
    if show {
        assert(plan =~= seq![hidden_w, hook_w]);
        assert(plan.last() == hook_w);
        assert(plan.drop_last() =~= p0);
        assert(flag_after(plan, "Hidden"@, hidden) == flag_after(p0, "Hidden"@, hidden));
    } else {
        let p1 = seq![hidden_w, override_w];
        assert(plan =~= seq![hidden_w, override_w, hook_w]);
        assert(plan.last() == hook_w);
        assert(plan.drop_last() =~= p1);
        assert(p1.last() == override_w);
        assert(p1.drop_last() =~= p0);
        assert(flag_after(p1, "Hidden"@, hidden) == flag_after(p0, "Hidden"@, hidden));
        assert(flag_after(plan, "Hidden"@, hidden) == flag_after(p1, "Hidden"@, hidden));
        assert(flag_after(p1, "X-XFCE-Autostart-Override"@, show_in_override) == state.enabled);
        assert(flag_after(plan, "X-XFCE-Autostart-Override"@, show_in_override) == flag_after(
            p1,
            "X-XFCE-Autostart-Override"@,
            show_in_override,
        ));
    }
}

/// A stored entry reads back as on, with the trigger it was stored with,
/// whatever the file said before.
pub proof fn lemma_store_writes_read_back(
    name: Seq<char>,
    comment: Seq<char>,
    exec: Seq<char>,
    run_hook: RunHook,
    hidden: bool,
    prior_run_hook: int,
)
    ensures
        flag_after(store_plan(name, comment, exec, run_hook), "Hidden"@, hidden) == false,
        RunHook::at(number_after(store_plan(name, comment, exec, run_hook), "RunHook"@, prior_run_hook))
            == run_hook,
{
    reveal_strlit("Hidden");
    reveal_strlit("RunHook");
    let plan = store_plan(name, comment, exec, run_hook);
    assert("Hidden"@ != "RunHook"@) by {
        assert("Hidden"@.len() != "RunHook"@.len());
    }
    crate::run_hook::lemma_value_round_trip(run_hook);
    assert(plan.last() == ("RunHook"@, RcValueView::Number(run_hook.index())));
    let p = plan.drop_last();
    assert(p.len() == 9);
    assert(p.last() == ("Hidden"@, RcValueView::Flag(false)));
    assert(flag_after(p, "Hidden"@, hidden) == false);
    assert(flag_after(plan, "Hidden"@, hidden) == flag_after(p, "Hidden"@, hidden));
}

/// A listed entry is this desktop's exactly when its `OnlyShowIn` is empty
/// or names the desktop: `X-XFCE-Autostart-Override` never makes it one,
/// and never decides whether the entry is listed at all.
pub proof fn lemma_listed_on_this_desktop_by_only_show_in(
    r: EntryRecord,
    desktop: Seq<char>,
    try_exec_found: bool,
    show_in_override: bool,
)
    ensures
        listed_on(r, desktop, try_exec_found) matches Some(b) ==> b == (r.only_show_in@.len() == 0
            || names_desktop(views(r.only_show_in@), desktop)),
        listed_on(EntryRecord { show_in_override, ..r }, desktop, try_exec_found) == listed_on(
            r,
            desktop,
            try_exec_found,
        ),
{
}

/// `decimal` never writes two numbers the same way.
pub proof fn lemma_decimal_injective(n: nat, m: nat)
    requires
        decimal(n) == decimal(m),
    ensures
        n == m,
    decreases n,
{
    let a = decimal(n);
    let b = decimal(m);
    if n < 10 && m < 10 {
        assert(a[0] == b[0]);
    } else if n >= 10 && m >= 10 {
        assert(a.last() == b.last());
        assert(a.drop_last() =~= decimal(n / 10));
        assert(b.drop_last() =~= decimal(m / 10));
        lemma_decimal_injective(n / 10, m / 10);
    } else {
        lemma_decimal_len(n);
        lemma_decimal_len(m);
        if n < 10 {
            lemma_decimal_len(m / 10);
        } else {
            lemma_decimal_len(n / 10);
        }
        assert(a.len() == b.len());
    }
}

/// A number of ten or more takes more than one digit.
proof fn lemma_decimal_len(n: nat)
    ensures
        decimal(n).len() >= 1,
        n >= 10 ==> decimal(n).len() >= 2,
    decreases n,
{
    if n >= 10 {
        lemma_decimal_len(n / 10);
    }
}

/// The names a new entry is offered never repeat: each candidate the search
/// moves on to is a new path.
pub proof fn lemma_rel_path_candidates_distinct(name: Seq<char>, n: nat, m: nat)
    requires
        n != m,
    ensures
        rel_path_view(name, n) != rel_path_view(name, m),
{
    let safe = name.map_values(|c: char| if c == '/' { '-' } else { c });
    let head = "autostart/"@ + safe;
    let tail = ".desktop"@;
    let mid_n: Seq<char> = if n == 0 {
        seq![]
    } else {
        seq!['-'] + decimal(n)
    };
    let mid_m: Seq<char> = if m == 0 {
        seq![]
    } else {
        seq!['-'] + decimal(m)
    };
    assert(rel_path_view(name, n) == head + mid_n + tail);
    assert(rel_path_view(name, m) == head + mid_m + tail);
    if rel_path_view(name, n) == rel_path_view(name, m) {
        let x = head + mid_n + tail;
        let y = head + mid_m + tail;
        assert(x.len() == y.len());
        assert(mid_n.len() == mid_m.len());
        assert(mid_n =~= x.subrange(head.len() as int, (head.len() + mid_n.len()) as int));
        assert(mid_m =~= y.subrange(head.len() as int, (head.len() + mid_m.len()) as int));
        assert(mid_n == mid_m);
        if n == 0 || m == 0 {
            lemma_decimal_len(n);
            lemma_decimal_len(m);
        } else {
            assert(decimal(n) =~= mid_n.skip(1));
            assert(decimal(m) =~= mid_m.skip(1));
            lemma_decimal_injective(n, m);
        }
    }
}

} // verus!
