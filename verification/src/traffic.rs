//! What comes in from the host and what it leads to: messages by their names, events, settings,
//! the shared width, and the march of new agents.

use vstd::prelude::*;

use crate::config::{
    key_spelling, lookup, lowered, modifier_spelling, plain_value, setting_table, shown_key, spaced,
    ConfigV, KindV, SettingV,
};
use crate::deploy::{flight, landing, last_landing, Deployment};
use crate::host::{HostCallV, Key, PaneId, PaneManifestV, Resize, Sender, TabInfoV};
use crate::ids::{ascending, group_views, lemma_ascending};
use crate::keys::{focuses_nothing, law_preview_follows_quietly};
use crate::payload::StatusPayloadV;
use crate::plugin::{is_ours, AnswersV, EventV};
use crate::report::new_agent;
use crate::search::{printable, SearchPhase};
use crate::state::{InstanceV, ListingV, StateV};
use crate::sync::siblings_in;
use crate::text::{
    control, digits, lemma_digits_without, lemma_parsed_digits, lemma_trimmed_digits, trim_start,
    trimmed,
};
use crate::wire::{
    COMMAND_STATE_PIPE, DISMISS_PIPE, MARK_PIPE, NAV_DOWN_PIPE, NAV_GO_PIPE, NAV_MODE_PIPE,
    NAV_UP_PIPE, PREVIEW_PIPE, READ_CLEAR_PIPE, SELECTION_PIPE, STATUS_PIPE, SYNC_STATE_PIPE,
    TOGGLE_CWD_PIPE, WIDTH_PIPE,
};

verus! {

broadcast use group_views;

// --- messages ---

/// Two states that differ at most in what is on screen and in what the host was asked for.
pub open spec fn same_inside(s: StateV, t: StateV) -> bool {
    s.list == t.list && s.status == t.status && s.me == t.me && s.config == t.config && s.nav
        == t.nav && s.focus == t.focus && s.width == t.width && s.clock == t.clock && s.groups
        == t.groups && s.disk == t.disk
}

proof fn lemma_cursor_inside(s: StateV)
    ensures
        same_inside(s.sync_cursor(), s),
        s.calls.len() <= s.sync_cursor().calls.len(),
        forall|i: int| 0 <= i < s.calls.len() ==> (#[trigger] s.sync_cursor().calls[i]) == s.calls[i],
        forall|i: int|
            s.calls.len() <= i < s.sync_cursor().calls.len() ==> (
            #[trigger] s.sync_cursor().calls[i]) is ShowCursor,
        s.sync_cursor().screen.preview_content == s.screen.preview_content,
{
}

proof fn lemma_pipe_names()
    ensures
        STATUS_PIPE@.len() == 12,
        NAV_UP_PIPE@.len() == 8,
        NAV_DOWN_PIPE@.len() == 10,
        NAV_GO_PIPE@.len() == 8,
        NAV_MODE_PIPE@.len() == 10,
        TOGGLE_CWD_PIPE@.len() == 16,
        SYNC_STATE_PIPE@.len() == 16,
        READ_CLEAR_PIPE@.len() == 10,
        COMMAND_STATE_PIPE@.len() == 13,
        SELECTION_PIPE@.len() == 15,
        MARK_PIPE@.len() == 10,
        PREVIEW_PIPE@.len() == 13,
        WIDTH_PIPE@.len() == 11,
        DISMISS_PIPE@.len() == 13,
        NAV_UP_PIPE@[6] == 'u',
        NAV_GO_PIPE@[6] == 'g',
        NAV_DOWN_PIPE@[6] == 'd',
        NAV_MODE_PIPE@[7] == 'o',
        NAV_MODE_PIPE@[6] == 'm',
        READ_CLEAR_PIPE@[6] == 'r',
        MARK_PIPE@[6] == 'm',
        MARK_PIPE@[7] == 'a',
        TOGGLE_CWD_PIPE@[6] == 't',
        SYNC_STATE_PIPE@[6] == 's',
        COMMAND_STATE_PIPE@[6] == 'c',
        PREVIEW_PIPE@[6] == 'p',
        DISMISS_PIPE@[6] == 'd',
{
    reveal_strlit("fujin_status");
    reveal_strlit("fujin_up");
    reveal_strlit("fujin_down");
    reveal_strlit("fujin_go");
    reveal_strlit("fujin_mode");
    reveal_strlit("fujin_toggle_cwd");
    reveal_strlit("fujin_sync_state");
    reveal_strlit("fujin_read");
    reveal_strlit("fujin_command");
    reveal_strlit("fujin_selection");
    reveal_strlit("fujin_mark");
    reveal_strlit("fujin_preview");
    reveal_strlit("fujin_width");
    reveal_strlit("fujin_dismiss");
}

/// What a message is, by its name: each name leads to its own part, and to no other.
#[verifier::rlimit(40)]
pub proof fn law_messages_by_name(
    s: StateV,
    payload: Option<Seq<char>>,
    sender: Sender,
    focus: Option<(usize, PaneId)>,
)
    requires
        !s.me.is_preview,
        sender != Sender::Cli,
    ensures
        same_inside(
            s.pipe("fujin_status"@, payload, sender, focus).0,
            s.status_message(payload, focus).0,
        ),
        same_inside(s.pipe("fujin_up"@, payload, sender, focus).0, s.nav_step(false, focus).0),
        same_inside(s.pipe("fujin_down"@, payload, sender, focus).0, s.nav_step(true, focus).0),
        same_inside(s.pipe("fujin_go"@, payload, sender, focus).0, s.nav_go(focus)),
        same_inside(s.pipe("fujin_mode"@, payload, sender, focus).0, s.nav_request(focus).0),
        same_inside(s.pipe("fujin_toggle_cwd"@, payload, sender, focus).0, s.toggle_cwd(payload)),
        same_inside(s.pipe("fujin_dismiss"@, payload, sender, focus).0, s.dismiss()),
        same_inside(
            s.pipe("fujin_selection"@, payload, sender, focus).0,
            s.selection_message(payload),
        ),
        same_inside(s.pipe("fujin_preview"@, payload, sender, focus).0, s),
        same_inside(
            s.pipe("fujin_width"@, payload, sender, focus).0,
            s.width_message(payload, sender).0,
        ),
        same_inside(
            s.pipe("fujin_sync_state"@, payload, sender, focus).0,
            s.sync_message(payload, sender).0,
        ),
        payload is Some ==> same_inside(
            s.pipe("fujin_mark"@, payload, sender, focus).0,
            s.apply_marks(payload->0),
        ),
        payload is Some ==> same_inside(
            s.pipe("fujin_read"@, payload, sender, focus).0,
            s.apply_read_clears(payload->0),
        ),
        payload is Some ==> same_inside(
            s.pipe("fujin_command"@, payload, sender, focus).0,
            s.apply_command_dump(payload->0),
        ),
        payload is None ==> same_inside(s.pipe("fujin_mark"@, payload, sender, focus).0, s)
            && same_inside(s.pipe("fujin_read"@, payload, sender, focus).0, s) && same_inside(
            s.pipe("fujin_command"@, payload, sender, focus).0,
            s,
        ),
{
    reveal(StateV::on_message);
    lemma_pipe_names();
    lemma_cursor_inside(s.status_message(payload, focus).0);
    lemma_cursor_inside(s.nav_step(false, focus).0);
    lemma_cursor_inside(s.nav_step(true, focus).0);
    lemma_cursor_inside(s.nav_go(focus));
    lemma_cursor_inside(s.nav_request(focus).0);
    lemma_cursor_inside(s.toggle_cwd(payload));
    lemma_cursor_inside(s.dismiss());
    lemma_cursor_inside(s.selection_message(payload));
    lemma_cursor_inside(s);
    lemma_cursor_inside(s.width_message(payload, sender).0);
    lemma_cursor_inside(s.sync_message(payload, sender).0);
    if payload is Some {
        lemma_cursor_inside(s.apply_marks(payload->0));
        lemma_cursor_inside(s.apply_read_clears(payload->0));
        lemma_cursor_inside(s.apply_command_dump(payload->0));
    }
}

/// A message under any other name changes nothing and draws nothing.
#[verifier::rlimit(40)]
pub proof fn law_other_messages(
    s: StateV,
    name: Seq<char>,
    payload: Option<Seq<char>>,
    sender: Sender,
    focus: Option<(usize, PaneId)>,
)
    requires
        name != "fujin_status"@,
        name != "fujin_up"@,
        name != "fujin_down"@,
        name != "fujin_go"@,
        name != "fujin_mode"@,
        name != "fujin_toggle_cwd"@,
        name != "fujin_dismiss"@,
        name != "fujin_selection"@,
        name != "fujin_preview"@,
        name != "fujin_mark"@,
        name != "fujin_width"@,
        name != "fujin_read"@,
        name != "fujin_command"@,
        name != "fujin_sync_state"@,
    ensures
        same_inside(s.pipe(name, payload, sender, focus).0, s),
        !s.pipe(name, payload, sender, focus).1,
{
    reveal(StateV::on_message);
    lemma_cursor_inside(s);
}

/// A report of an agent is taken in as it reads; one that cannot be read changes nothing.
pub proof fn law_report_message(s: StateV, raw: Seq<char>, focus: Option<(usize, PaneId)>)
    ensures
        ({
            let t = s.status_message(Some(raw), focus).0;
            &&& StatusPayloadV::read(raw) is None ==> t == s
            &&& StatusPayloadV::read(raw) matches Some(p) ==> t.status == s.apply_status(p).status
                && t.list == s.apply_status(p).list && t.nav == s.nav && t.focus == s.focus
        }),
{
}

/// A direct key moves the selection of the instance on screen by one row and stops at the ends;
/// it marks, reads and focuses nothing. On any other instance it moves nothing.
pub proof fn law_direct_keys_step(s: StateV, forward: bool)
    requires
        s.list.selected < s.list.selectable.len() <= usize::MAX,
    ensures
        ({
            let t = s.nav_step(forward, None).0;
            let at = s.list.selected as int;
            &&& !s.me.visible ==> t == s
            &&& s.me.visible && forward ==> t.list.selected == (if at + 1
                < s.list.selectable.len() {
                at + 1
            } else {
                at
            })
            &&& s.me.visible && !forward ==> t.list.selected == (if at > 0 {
                at - 1
            } else {
                0
            })
            &&& t.list.selectable == s.list.selectable
            &&& t.list.marked == s.list.marked
            &&& t.status == s.status
            &&& t.nav == s.nav
            &&& focuses_nothing(t.calls, s.calls.len() as int)
        }),
{
}

/// The direct key for a jump focuses the selected pane, on the instance on screen alone.
pub proof fn law_direct_key_jumps(s: StateV)
    requires
        s.list.selected < s.list.selectable.len(),
    ensures
        !s.me.visible ==> s.nav_go(None) == s,
        s.me.visible ==> s.nav_go(None).calls == s.calls.push(
            HostCallV::FocusPane(
                s.list.selectable[s.list.selected as int].pane_id,
                s.list.selectable[s.list.selected as int].is_floating,
            ),
        ) && s.nav_go(None).list == s.list && s.nav_go(None).nav == s.nav,
{
}

/// The request for nav mode: the instance on screen enters it and stays in it if it was there;
/// any other asks where it is needed and enters nothing.
pub proof fn law_request_for_nav_mode(s: StateV)
    ensures
        s.me.visible ==> s.nav_request(None).0.nav.nav_mode,
        s.me.visible && s.nav.nav_mode ==> s.nav_request(None).0 == s,
        !s.me.visible ==> s.nav_request(None).0.nav == s.nav && s.nav_request(None).0.calls
            == s.calls.push(HostCallV::QuerySummon),
{
}

// --- events ---

/// A report of the tabs replaces the tabs; a report of the panes replaces the panes. Either way
/// the list is made anew from both.
#[verifier::rlimit(40)]
pub proof fn law_reports_replace(
    s: StateV,
    tabs: Seq<TabInfoV>,
    m: PaneManifestV,
    answers: AnswersV,
)
    requires
        !s.me.is_preview,
    ensures
        ({
            let t = s.update(EventV::TabUpdate(tabs), answers).0;
            let u = s.update(EventV::PaneUpdate(m), answers).0;
            let with_tabs = StateV { list: ListingV { tabs, ..s.list }, ..s };
            let with_panes = StateV { list: ListingV { panes: Some(m), ..s.list }, ..s };
            &&& t.list.tabs == tabs
            &&& t.list.panes == s.list.panes
            &&& t.list.selectable == with_tabs.rebuild_selectable().list.selectable
            &&& u.list.panes == Some(m)
            &&& u.list.tabs == s.list.tabs
            &&& u.list.selectable == with_panes.rebuild_selectable().list.selectable
            &&& t.status == s.status
        }),
{
    let with_tabs = StateV { list: ListingV { tabs, ..s.list }, ..s };
    let a = with_tabs.rebuild_selectable();
    lemma_focus_keeps_list(a, answers.focus);
    let b = a.refresh_focus(answers.focus);
    lemma_pending_keeps_list(b);
    lemma_cursor_inside(b.enter_nav_mode_if_pending());
    let r = s.apply_command_states(m).apply_read_model(m);
    let c = StateV { list: ListingV { panes: Some(m), ..r.list }, ..r }.rebuild_selectable();
    assert(r.list == s.list);
    let d = c.prune_stale_agents().learn_own_plugin_url(answers.plugin_url);
    lemma_siblings_keep_list(d);
    let e = d.push_state_to_new_siblings();
    lemma_focus_keeps_list(e, answers.focus);
    let f = e.refresh_focus(answers.focus);
    lemma_pending_keeps_list(f);
    lemma_cursor_inside(f.enter_nav_mode_if_pending());
}

proof fn lemma_focus_keeps_list(s: StateV, answer: Option<(usize, PaneId)>)
    ensures
        s.refresh_focus(answer).list.selectable == s.list.selectable,
        s.refresh_focus(answer).list.tabs == s.list.tabs,
        s.refresh_focus(answer).list.panes == s.list.panes,
        s.refresh_focus(answer).list.pane_cwds == s.list.pane_cwds,
        s.refresh_focus(answer).status == s.status,
{
}

proof fn lemma_pending_keeps_list(s: StateV)
    ensures
        s.enter_nav_mode_if_pending().list.selectable == s.list.selectable,
        s.enter_nav_mode_if_pending().list.tabs == s.list.tabs,
        s.enter_nav_mode_if_pending().list.panes == s.list.panes,
        s.enter_nav_mode_if_pending().list.pane_cwds == s.list.pane_cwds,
        s.enter_nav_mode_if_pending().status == s.status,
{
}

proof fn lemma_push_all_keeps(s: StateV, ids: Seq<u32>)
    ensures
        s.push_all(ids).list == s.list,
        s.push_all(ids).status == s.status,
    decreases ids.len(),
{
    if ids.len() > 0 {
        lemma_push_all_keeps(s, ids.drop_last());
    }
}

proof fn lemma_siblings_keep_list(s: StateV)
    ensures
        s.push_state_to_new_siblings().list == s.list,
        s.push_state_to_new_siblings().status == s.status,
{
    match (s.me.own_plugin_id, s.me.own_plugin_url, s.list.panes) {
        (Some(own), Some(url), Some(m)) => {
            let siblings = siblings_in(m.flat(), own, url);
            let newcomers = ascending(siblings.difference(s.me.known_siblings));
            let t = s.with_me(
                InstanceV { known_siblings: siblings, ..s.me },
            );
            lemma_push_all_keeps(t.ask_siblings(), newcomers);
        },
        _ => {},
    }
}

/// The user's leave: with it a resident sidebar takes itself out of the focus, names itself, and
/// draws; without it nothing but the answer is noted.
#[verifier::rlimit(40)]
pub proof fn law_permission(s: StateV, answers: AnswersV, own: u32)
    requires
        !s.me.is_preview,
        s.me.own_plugin_id == Some(own),
        !s.me.summoned,
        !answers.floating,
        !s.me.pending_nav_entry,
    ensures
        ({
            let t = s.on_permission(true, answers);
            let u = s.on_permission(false, answers);
            let n = s.calls.len() as int;
            &&& t.me.permissions_granted
            &&& t.calls.len() >= n + 2
            &&& t.calls[n] == HostCallV::SetSelectable(false)
            &&& t.calls[n + 1] == HostCallV::RenamePluginPane(own, "fujin"@)
            &&& !u.me.permissions_granted
            &&& u.calls == s.calls
            &&& u.nav == s.nav
        }),
{
}

/// An instance notes whether it is on screen, and looks for the focus when it comes there.
pub proof fn law_visibility(s: StateV, visible: bool, answers: AnswersV)
    ensures
        s.on_visible(visible, answers).me.visible == visible,
        !visible ==> s.on_visible(visible, answers).focus == s.focus && s.on_visible(
            visible,
            answers,
        ).list == s.list,
        visible && answers.focus is None ==> s.on_visible(
            visible,
            answers,
        ).focus.pending_focus_resync,
{
}

/// A pane that is about to close gives back the keys, if it had them, the preview and the focus.
pub proof fn law_closing_gives_back(s: StateV)
    ensures
        ({
            let t = s.on_close();
            &&& !t.nav.nav_mode
            &&& t.nav.preview is None
            &&& t.focus.focus_parked is None
            &&& s.nav.nav_mode ==> t.calls.len() > s.calls.len()
                && t.calls[s.calls.len() as int] == HostCallV::ClearKeyPressesIntercepts
            &&& !s.nav.nav_mode && s.nav.preview is None && s.focus.focus_parked is None ==> t == s
        }),
{
}

/// The timer: the clock goes on by what the host says, and the next one is set exactly where a
/// march, a read or a warning still waits for it.
pub proof fn law_timer_goes_on(s: StateV, by: u64)
    requires
        s.clock.elapsed + by <= u64::MAX,
    ensures
        ({
            let t = s.on_timer(by).0;
            let waits = t.clock.deployment is Some || !t.status.pending_reads.dom().is_empty()
                || t.config.config_warning_until is Some;
            &&& t.clock.elapsed == s.clock.elapsed + by
            &&& t.clock.timer_armed <==> waits
            &&& waits ==> t.calls.last() == HostCallV::SetTimeout(150_000)
        }),
{
}

/// Text that is pasted while a query is typed extends the query by what can be printed; at any
/// other time it does nothing.
pub proof fn law_paste_extends_query(s: StateV, text: Seq<char>)
    requires
        !s.nav.help_overlay,
    ensures
        ({
            let t = s.pasted_text(text).0;
            let editing = s.nav.search is Some && s.nav.search->0.phase == SearchPhase::Editing;
            &&& editing && printable(text).len() > 0 ==> t.nav.search is Some
                && t.nav.search->0.query == s.nav.search->0.query + printable(text)
                && t.nav.search->0.phase == SearchPhase::Editing
            &&& !editing || printable(text).len() == 0 ==> t == s
        }),
{
    if s.nav.search is Some {
        law_preview_follows_quietly(
            s.with_query(s.nav.search->0.query + printable(text)),
        );
    }
}

/// What can be printed of a text is the text without its control characters, in order.
pub proof fn law_printable(text: Seq<char>)
    ensures
        printable(text) == text.filter(|c: char| !control(c)),
    decreases text.len(),
{
    reveal(Seq::filter);
    if text.len() > 0 {
        law_printable(text.drop_last());
    } else {
        assert(printable(text) =~= text.filter(|c: char| !control(c)));
    }
}

// --- settings ---

/// The first entry under the key stands at `i`.
pub open spec fn written_at(c: Seq<(Seq<char>, Seq<char>)>, key: Seq<char>, i: int) -> bool {
    0 <= i < c.len() && c[i].0 == key && forall|j: int| 0 <= j < i ==> (#[trigger] c[j]).0 != key
}

/// The key is not written.
pub open spec fn unwritten(c: Seq<(Seq<char>, Seq<char>)>, key: Seq<char>) -> bool {
    forall|j: int| 0 <= j < c.len() ==> (#[trigger] c[j]).0 != key
}

proof fn lemma_lookup_at(c: Seq<(Seq<char>, Seq<char>)>, key: Seq<char>, i: int)
    requires
        written_at(c, key, i) || (unwritten(c, key) && i == c.len()),
    ensures
        i < c.len() ==> lookup(c, key) == Some(c[i].1),
        i == c.len() ==> lookup(c, key) is None,
    decreases c.len(),
{
    if c.len() > 0 && i > 0 {
        assert(c[0].0 != key);
        let rest = c.drop_first();
        if i < c.len() {
            assert(rest[i - 1] == c[i]);
        }
        assert forall|j: int| 0 <= j < i - 1 implies (#[trigger] rest[j]).0 != key by {
            assert(rest[j] == c[j + 1]);
        }
        lemma_lookup_at(rest, key, i - 1);
    }
}

proof fn lemma_settings(c: Seq<(Seq<char>, Seq<char>)>)
    ensures
        ({
            let r = ConfigV::of(c, setting_table());
            let on = |key: Seq<char>| lookup(c, key) is Some && plain_value(lookup(c, key)->0)
                == "true"@;
            let off = |key: Seq<char>| lookup(c, key) is Some && plain_value(lookup(c, key)->0)
                == "false"@;
            let bad = |key: Seq<char>|
                lookup(c, key) is Some && plain_value(lookup(c, key)->0).len() > 0 && plain_value(
                    lookup(c, key)->0,
                ) != "true"@ && plain_value(lookup(c, key)->0) != "false"@;
            &&& r.show_cwd == on("show_cwd"@)
            &&& r.show_cwd_tilde == on("show_cwd_tilde"@)
            &&& r.show_deploy_animation == !off("show_deploy_animation"@)
        }),
{
    reveal_strlit("true");
    reveal_strlit("false");
    assert("true"@.len() == 4);
    assert("false"@.len() == 5);
    let t = setting_table();
    reveal_with_fuel(ConfigV::of, 8);
    assert(t.drop_last().drop_last().drop_last().drop_last() =~= t.take(3));
    assert(t.take(3).drop_last() =~= t.take(2));
    assert(t.take(2).drop_last() =~= t.take(1));
    assert(t.take(1).drop_last() =~= t.take(0));
}

/// The switches: the cwd rows and their short form are off unless they are written `true`, the
/// march is on unless it is written `false`. The first entry under a key counts.
pub proof fn law_switches(c: Seq<(Seq<char>, Seq<char>)>, i: int)
    ensures
        ({
            let r = ConfigV::of(c, setting_table());
            &&& written_at(c, "show_cwd"@, i) ==> r.show_cwd == (plain_value(c[i].1) == "true"@)
            &&& unwritten(c, "show_cwd"@) ==> !r.show_cwd
            &&& written_at(c, "show_cwd_tilde"@, i) ==> r.show_cwd_tilde == (plain_value(c[i].1)
                == "true"@)
            &&& unwritten(c, "show_cwd_tilde"@) ==> !r.show_cwd_tilde
            &&& written_at(c, "show_deploy_animation"@, i) ==> r.show_deploy_animation == (
            plain_value(c[i].1) != "false"@)
            &&& unwritten(c, "show_deploy_animation"@) ==> r.show_deploy_animation
        }),
{
    lemma_settings(c);
    if written_at(c, "show_cwd"@, i) {
        lemma_lookup_at(c, "show_cwd"@, i);
    }
    if unwritten(c, "show_cwd"@) {
        lemma_lookup_at(c, "show_cwd"@, c.len() as int);
    }
    if written_at(c, "show_cwd_tilde"@, i) {
        lemma_lookup_at(c, "show_cwd_tilde"@, i);
    }
    if unwritten(c, "show_cwd_tilde"@) {
        lemma_lookup_at(c, "show_cwd_tilde"@, c.len() as int);
    }
    if written_at(c, "show_deploy_animation"@, i) {
        lemma_lookup_at(c, "show_deploy_animation"@, i);
    }
    if unwritten(c, "show_deploy_animation"@) {
        lemma_lookup_at(c, "show_deploy_animation"@, c.len() as int);
    }
}

/// What an instance is told about itself at its start: a preview and a summoned one know it by
/// their configuration, and a summoned one wants nav mode. The host is asked to show the pane in
/// the focus, for the permissions, and for events.
#[verifier::rlimit(40)]
pub proof fn law_start(s: StateV, c: Seq<(Seq<char>, Seq<char>)>, own: u32, i: int)
    ensures
        ({
            let t = s.load(c, own);
            let n = s.calls.len() as int;
            &&& t.me.own_plugin_id == Some(own)
            &&& written_at(c, "summoned"@, i) ==> t.me.summoned == (plain_value(c[i].1)
                == "true"@)
            &&& unwritten(c, "summoned"@) ==> !t.me.summoned
            &&& t.me.pending_nav_entry == t.me.summoned
            &&& written_at(c, "preview"@, i) ==> t.me.is_preview == (plain_value(c[i].1)
                == "true"@)
            &&& unwritten(c, "preview"@) ==> !t.me.is_preview
            &&& t.calls == s.calls.push(HostCallV::SetSelectable(true)).push(
                HostCallV::RequestPermission,
            ).push(HostCallV::Subscribe)
            &&& t.config.show_cwd == ConfigV::of(c, setting_table()).show_cwd
            &&& t.config.show_cwd_tilde == ConfigV::of(c, setting_table()).show_cwd_tilde
            &&& t.config.show_deploy_animation == ConfigV::of(
                c,
                setting_table(),
            ).show_deploy_animation
        }),
{
    if written_at(c, "summoned"@, i) {
        lemma_lookup_at(c, "summoned"@, i);
    }
    if unwritten(c, "summoned"@) {
        lemma_lookup_at(c, "summoned"@, c.len() as int);
    }
    if written_at(c, "preview"@, i) {
        lemma_lookup_at(c, "preview"@, i);
    }
    if unwritten(c, "preview"@) {
        lemma_lookup_at(c, "preview"@, c.len() as int);
    }
}

/// The warning of a bad setting comes with the permission and goes after five seconds of timer
/// time; while a sub-mode needs the footer it is not shown.
pub proof fn law_warning_goes(s: StateV, by: u64)
    requires
        s.config.config_warnings.len() > 0,
        s.config.config_warning_until is None,
        s.clock.elapsed + 5_000_000 <= u64::MAX,
        s.clock.elapsed + by <= u64::MAX,
    ensures
        ({
            let t = s.arm_config_warning();
            let u = t.on_timer(by).0;
            &&& t.config.config_warning_until == Some((s.clock.elapsed + 5_000_000) as u64)
            &&& t.clock.timer_armed
            &&& u.config.config_warnings.len() == 0 <==> by >= 5_000_000
            &&& t.showing_config_warning() <==> !s.nav.help_overlay && s.nav.termination is None
                && s.nav.search is None && s.nav.jump is None
        }),
{
}

// --- the shared width ---

/// A change of width that this instance did not ask for is the user's: it becomes the shared
/// width, and every sibling is told.
pub proof fn law_user_sets_the_width(s: StateV, cols: usize, id: u32)
    requires
        !s.me.is_preview,
        !s.me.summoned,
        cols > 0,
        s.width.width_adjusting is None,
        s.screen.viewport_cols != 0,
        s.screen.viewport_cols != cols,
        s.width.width_target != Some(cols),
        s.me.known_siblings.finite(),
    ensures
        ({
            let t = s.reconcile_width(cols);
            &&& t.width.width_target == Some(cols)
            &&& t.width.width_attempts == 0
            &&& !t.width.width_settled
            &&& s.me.known_siblings.contains(id) ==> t.calls.contains(
                HostCallV::PipeMessageToPlugin("fujin_width"@, id, digits(cols as nat)),
            )
            &&& forall|i: int|
                s.calls.len() <= i < t.calls.len() ==> !((#[trigger] t.calls[i]) is ResizePane)
        }),
{
    let ids = ascending(s.me.known_siblings);
    lemma_ascending(s.me.known_siblings);
    let t = s.reconcile_width(cols);
    assert(t.calls == s.claim_width_authority(cols).calls);
    if s.me.known_siblings.contains(id) {
        assert(ids.to_set().contains(id));
        let j = choose|j: int| 0 <= j < ids.len() && ids[j] == id;
        assert(t.calls[s.calls.len() + j] == HostCallV::PipeMessageToPlugin(
            "fujin_width"@,
            id,
            digits(cols as nat),
        ));
    }
}

/// An instance more than one column off the shared width asks for one step towards it, as long
/// as steps are left and the nearest width was not found; within one column it asks for none.
pub proof fn law_steps_towards_the_width(s: StateV, cols: usize, target: usize, own: u32)
    requires
        !s.me.is_preview,
        !s.me.summoned,
        cols > 0,
        s.width.width_adjusting is None,
        s.screen.viewport_cols == 0 || s.screen.viewport_cols == cols,
        s.width.width_target == Some(target),
        s.me.own_plugin_id == Some(own),
    ensures
        ({
            let t = s.reconcile_width(cols);
            let near = cols <= target + 1 && target <= cols + 1;
            let steps = !near && !s.width.width_settled && s.width.width_attempts < 6;
            &&& t.width.width_target == Some(target)
            &&& steps ==> t.width.width_attempts == s.width.width_attempts + 1 && t.calls
                == s.calls.push(
                HostCallV::ResizePane(
                    if cols < target {
                        Resize::Increase
                    } else {
                        Resize::Decrease
                    },
                    PaneId::Plugin(own),
                ),
            ) && t.width.width_adjusting is Some
            &&& !steps ==> t.calls == s.calls && t.width.width_adjusting is None
            &&& near ==> t.width.width_attempts == 0 && !t.width.width_settled
            &&& !near && s.width.width_attempts >= 6 ==> t.width.width_settled
        }),
{
}

/// A step that is under way waits for the frame that shows it. One that crossed the target and
/// came no farther from it is the nearest that can be had: no step follows it.
pub proof fn law_crossing_settles(s: StateV, cols: usize, target: usize, fired: Resize)
    requires
        !s.me.is_preview,
        !s.me.summoned,
        cols > 0,
        s.width.width_adjusting == Some(fired),
        s.width.width_target == Some(target),
        !s.width.width_settled,
    ensures
        s.screen.viewport_cols == cols ==> s.reconcile_width(cols) == s,
        fired == Resize::Increase && s.screen.viewport_cols < target && target + 1 < cols && cols
            - target <= target - s.screen.viewport_cols ==> s.reconcile_width(cols).calls
            == s.calls && s.reconcile_width(cols).width.width_settled && s.reconcile_width(
            cols,
        ).width.width_target == Some(target),
        fired == Resize::Decrease && s.screen.viewport_cols > target && target > cols + 1 && target
            - cols <= s.screen.viewport_cols - target ==> s.reconcile_width(cols).calls == s.calls
            && s.reconcile_width(cols).width.width_settled && s.reconcile_width(
            cols,
        ).width.width_target == Some(target),
{
}

/// A step that went the other way than asked was the user's: the width it led to is the shared
/// one.
pub proof fn law_counter_step_is_the_users(s: StateV, cols: usize, fired: Resize)
    requires
        !s.me.is_preview,
        !s.me.summoned,
        cols > 0,
        s.width.width_adjusting == Some(fired),
        fired == Resize::Increase ==> cols < s.screen.viewport_cols,
        fired == Resize::Decrease ==> cols > s.screen.viewport_cols,
    ensures
        s.reconcile_width(cols).width.width_target == Some(cols),
        s.reconcile_width(cols).width.width_adjusting is None,
{
}

/// A preview, a summoned sidebar and a frame without width take no part.
pub proof fn law_own_widths(s: StateV, cols: usize)
    requires
        s.me.is_preview || s.me.summoned || cols == 0,
    ensures
        s.reconcile_width(cols) == s,
{
}

/// A message about the width: a number of columns is aimed for anew, the same one again, none
/// and anything else change nothing, and a question is answered to who asked.
pub proof fn law_width_messages(s: StateV, n: usize, asker: u32, sender: Sender)
    ensures
        n > 0 && s.width.width_target != Some(n) ==> ({
            let t = s.width_message(Some(digits(n as nat)), sender).0;
            t.width.width_target == Some(n) && t.width.width_attempts == 0
                && !t.width.width_settled && t.calls == s.calls
        }),
        n == 0 || s.width.width_target == Some(n) ==> s.width_message(
            Some(digits(n as nat)),
            sender,
        ).0 == s,
        s.width_message(None, sender).0 == s,
        s.width.width_target is Some ==> s.width_message(Some("?"@), Sender::Plugin(asker)).0.calls
            == s.calls.push(
            HostCallV::PipeMessageToPlugin(
                "fujin_width"@,
                asker,
                digits(s.width.width_target->0 as nat),
            ),
        ),
        s.width.width_target is None ==> s.width_message(Some("?"@), Sender::Plugin(asker)).0 == s,
{
    reveal_strlit("?");
    assert("?"@[0] == '?');
    assert(trim_start("?"@) == "?"@);
    assert(trimmed("?"@) == "?"@);
    lemma_trimmed_digits(n as nat);
    lemma_parsed_digits(n as nat, usize::MAX as nat);
    lemma_digits_without(n as nat, '?');
    let d = digits(n as nat);
    if d == "?"@ {
        assert(d.contains(d[0]));
    }
}

// --- the march ---

/// A session that starts brings a new agent, unless it only clears or compacts a running one. No
/// other event does.
pub proof fn law_new_agents(p: StatusPayloadV)
    ensures
        new_agent(p) <==> p.event == "SessionStart"@ && p.source != Some("clear"@) && p.source
            != Some("compact"@),
{
}

/// A new agent marches out on the instance on screen: the first starts the march and the timer,
/// one more joins those that march. Switched off, nobody marches.
pub proof fn law_march_begins(s: StateV, raw: Seq<char>, p: StatusPayloadV)
    requires
        StatusPayloadV::read(raw) == Some(p),
        p.event == "SessionStart"@,
        p.source != Some("clear"@),
        p.source != Some("compact"@),
        s.me.visible,
    ensures
        ({
            let t = s.status_message(Some(raw), None).0;
            &&& !s.config.show_deploy_animation ==> t.clock == s.clock
            &&& s.config.show_deploy_animation && s.clock.deployment is None
                ==> t.clock.deployment == Some(Deployment { troops: 1, frame: 0 })
                && t.clock.timer_armed
            &&& s.config.show_deploy_animation && s.clock.deployment is Some
                && s.clock.deployment->0.troops < usize::MAX ==> t.clock.deployment == Some(
                Deployment {
                    troops: (s.clock.deployment->0.troops + 1) as usize,
                    frame: s.clock.deployment->0.frame,
                },
            )
        }),
{
}

/// A troop starts at the header's text two frames after the one before it, advances two columns
/// a frame, and rests when it has reached its place.
pub proof fn law_troop_marches(d: Deployment, index: nat, launch: nat, width: nat)
    requires
        d.frame < usize::MAX,
        landing(index, launch, width) is Some,
    ensures
        ({
            let next = Deployment { frame: (d.frame + 1) as usize, ..d };
            let rest = landing(index, launch, width)->0;
            &&& d.frame < 2 * index ==> d.place(index, launch, width) is None
            &&& d.frame == 2 * index ==> d.place(index, launch, width) == Some(launch)
            &&& d.frame >= 2 * index ==> d.place(index, launch, width) is Some && next.place(
                index,
                launch,
                width,
            ) is Some && next.place(index, launch, width)->0 == (if d.place(
                index,
                launch,
                width,
            )->0 + 2 <= rest {
                d.place(index, launch, width)->0 + 2
            } else {
                rest
            })
        }),
{
}

/// The first troop rests in the last column, and each one after it two columns further left, as
/// long as there is room right of the start.
pub proof fn law_resting_places(index: nat, launch: nat, width: nat)
    ensures
        landing(index, launch, width) is Some <==> launch + 2 * index < width,
        landing(index, launch, width) is Some ==> landing(index, launch, width)->0 + 2 * index + 1
            == width,
{
}

/// The march goes on by one frame with each timer, and is gone after the frame that ends it.
pub proof fn law_march_goes_on(s: StateV, d: Deployment)
    requires
        s.clock.deployment == Some(d),
        d.frame < usize::MAX,
    ensures
        ({
            let (launch, width) = s.troop_field(s.screen.viewport_cols as nat);
            let t = s.advance_deployment();
            &&& t.clock.deployment is Some <==> d.frame + 1 <= d.end(launch, width)
            &&& t.clock.deployment is Some ==> t.clock.deployment == Some(
                Deployment { frame: (d.frame + 1) as usize, ..d },
            )
            &&& t.list == s.list && t.status == s.status && t.nav == s.nav
        }),
{
}

// --- keys and warnings of the settings ---

/// A direct key is shown as it is spelled for the user where it can be read, and as it is written,
/// with a warning, where it cannot; a switch that is neither on nor off is warned of. What is not
/// written, or is written empty, leaves no trace.
pub proof fn law_one_setting(c: ConfigV, setting: SettingV, value: Seq<char>)
    ensures
        ({
            let r = c.with_value(setting, value);
            &&& setting.kind is DirectKey && shown_key(value) is Some ==> r == (ConfigV {
                direct_keys: c.direct_keys.push((setting.key, shown_key(value)->0)),
                ..c
            })
            &&& setting.kind is DirectKey && shown_key(value) is None ==> r == (ConfigV {
                direct_keys: c.direct_keys.push((setting.key, value)),
                warnings: c.warnings.push(setting.key),
                ..c
            })
            &&& setting.kind is Flag && value != "true"@ && value != "false"@ ==> r == (ConfigV {
                warnings: c.warnings.push(setting.key),
                ..c
            })
            &&& setting.kind is Flag && (value == "true"@ || value == "false"@) ==> r.warnings
                == c.warnings && r.direct_keys == c.direct_keys
        }),
{
}

/// The settings that there are, in the order of the footer: three switches and four keys, each
/// with the word that the footer has for it.
pub proof fn law_settings_there_are()
    ensures
        ({
            let t = setting_table();
            &&& t.len() == 7
            &&& t[0].key == "show_cwd"@ && t[0].kind is Flag
            &&& t[1].key == "show_cwd_tilde"@ && t[1].kind is Flag
            &&& t[2].key == "show_deploy_animation"@ && t[2].kind is Flag
            &&& t[3].key == "up_key"@ && t[3].kind == KindV::DirectKey("up"@, Some("↑"@))
            &&& t[4].key == "down_key"@ && t[4].kind == KindV::DirectKey("down"@, Some("↓"@))
            &&& t[5].key == "go_key"@ && t[5].kind == KindV::DirectKey("jump"@, None)
            &&& t[6].key == "toggle_cwd_key"@ && t[6].kind == KindV::DirectKey("cwd"@, None)
        }),
{
}

/// A key is spelled with its modifiers in small letters, each with a plus behind it, and then the
/// bare key: a character as it is, the space and the arrows as words.
pub proof fn law_key_spelling(m: Seq<char>, c: char, name: Seq<char>)
    ensures
        key_spelling(seq![m], Some(c), name) == lowered(m) + seq!['+'] + (if c == ' ' {
            "space"@
        } else {
            seq![c]
        }),
        key_spelling(Seq::empty(), Some('u'), name) == seq!['u'],
        key_spelling(Seq::empty(), None, "↑"@) == "up"@,
        key_spelling(Seq::empty(), None, "↓"@) == "down"@,
        key_spelling(Seq::empty(), None, "←"@) == "left"@,
        key_spelling(Seq::empty(), None, "→"@) == "right"@,
{
    reveal_strlit("↑");
    reveal_strlit("↓");
    reveal_strlit("←");
    reveal_strlit("→");
    assert("↑"@[0] == '↑');
    assert("↓"@[0] == '↓');
    assert("←"@[0] == '←');
    assert("→"@[0] == '→');
    reveal_with_fuel(modifier_spelling, 2);
    assert(seq![m].drop_last() =~= Seq::empty());
    assert(modifier_spelling(seq![m]) =~= lowered(m).push('+'));
    assert(key_spelling(seq![m], Some(c), name) =~= lowered(m) + seq!['+'] + (if c == ' ' {
        "space"@
    } else {
        seq![c]
    }));
    assert(key_spelling(Seq::empty(), Some('u'), name) =~= seq!['u']);
    assert(key_spelling(Seq::empty(), None, "↑"@) =~= "up"@);
    assert(key_spelling(Seq::empty(), None, "↓"@) =~= "down"@);
    assert(key_spelling(Seq::empty(), None, "←"@) =~= "left"@);
    assert(key_spelling(Seq::empty(), None, "→"@) =~= "right"@);
}

/// Both spellings of a key are the same key: a plus counts as a space.
pub proof fn law_plus_is_a_space(a: Seq<char>, b: Seq<char>)
    requires
        !a.contains('+'),
        !b.contains('+'),
    ensures
        shown_key(a + seq!['+'] + b) == shown_key(a + seq![' '] + b),
{
    let x = a + seq!['+'] + b;
    let y = a + seq![' '] + b;
    assert forall|i: int| 0 <= i < a.len() implies a[i] != '+' by {
        assert(a.contains(a[i]));
    }
    assert forall|i: int| 0 <= i < b.len() implies b[i] != '+' by {
        assert(b.contains(b[i]));
    }
    assert(spaced(x) =~= spaced(y));
}

// --- when to draw ---

/// Reports of tabs and panes are drawn, and so is an instance that comes on screen.
pub proof fn law_reports_draw(s: StateV, tabs: Seq<TabInfoV>, m: PaneManifestV, answers: AnswersV)
    ensures
        s.on_event(EventV::TabUpdate(tabs), answers).1,
        s.on_event(EventV::PaneUpdate(m), answers).1,
        s.on_event(EventV::Visible(true), answers).1,
{
}

/// Leaving the screen, closing and events without a meaning draw nothing, and the last change
/// nothing.
pub proof fn law_what_does_not_draw(s: StateV, answers: AnswersV)
    requires
        !s.me.is_preview,
    ensures
        !s.update(EventV::Visible(false), answers).1,
        !s.update(EventV::BeforeClose, answers).1,
        !s.update(EventV::Other, answers).1,
        s.update(EventV::Other, answers).0.list == s.list,
        s.update(EventV::Other, answers).0.nav == s.nav,
{
}

/// Every key in nav mode draws, but for one without a meaning while the hits of a search are
/// walked.
#[verifier::rlimit(40)]
pub proof fn law_keys_draw(s: StateV, key: Key)
    ensures
        !s.nav_key(key).1 ==> s.nav.search is Some && s.nav.search->0.phase
            == SearchPhase::Navigating && s.nav_key(key).0 == s,
{
}

/// An instance that is a preview names its pane and draws once it may, and takes nothing else in.
pub proof fn law_preview_instance(s: StateV, own: u32, answers: AnswersV, raw: Seq<char>)
    requires
        s.me.is_preview,
        s.me.own_plugin_id == Some(own),
    ensures
        s.update(EventV::Permission(true), answers).0.calls == s.calls.push(
            HostCallV::RenamePluginPane(own, "▣ preview"@),
        ),
        s.update(EventV::Permission(true), answers).0.me.permissions_granted,
        s.update(EventV::Timer(1), answers).0 == s,
        s.preview_message(Some(raw)).0 == s.apply_preview_snapshot(raw),
        s.preview_message(None).0 == s,
        s.status_message(None, None).0 == s,
{
}

// --- the end of a march ---

proof fn lemma_last_landing_is(n: nat, launch: nat, width: nat)
    ensures
        forall|i: nat|
            i < n && (#[trigger] flight(i, launch, width)) is Some ==> 2 * i + flight(
                i,
                launch,
                width,
            )->0 <= last_landing(n, launch, width),
        last_landing(n, launch, width) > 0 ==> exists|i: nat|
            i < n && (#[trigger] flight(i, launch, width)) is Some && 2 * i + flight(
                i,
                launch,
                width,
            )->0 == last_landing(n, launch, width),
    decreases n,
{
    if n > 0 {
        lemma_last_landing_is((n - 1) as nat, launch, width);
        let before = last_landing((n - 1) as nat, launch, width);
        let f = flight((n - 1) as nat, launch, width);
        if last_landing(n, launch, width) == before && before > 0 {
            let i = choose|i: nat|
                i < n - 1 && (#[trigger] flight(i, launch, width)) is Some && 2 * i + flight(
                    i,
                    launch,
                    width,
                )->0 == before;
            assert(flight(i, launch, width) is Some);
        }
    }
}

/// The march is held for three frames after the last troop has come to rest, no more and no less:
/// three frames before its end every troop is at its place, and one frame earlier some troop is
/// still on its way, where any marched at all.
pub proof fn law_march_is_held(d: Deployment, launch: nat, width: nat, index: nat)
    requires
        d.troops > 0,
    ensures
        d.end(launch, width) >= 3,
        index < d.troops && landing(index, launch, width) is Some ==> (Deployment {
            frame: (d.end(launch, width) - 3) as usize,
            ..d
        }).place(index, launch, width) == landing(index, launch, width) || d.end(launch, width) - 3
            > usize::MAX,
        3 < d.end(launch, width) <= usize::MAX ==> exists|i: nat|
            i < d.troops && (#[trigger] landing(i, launch, width)) is Some && (Deployment {
                frame: (d.end(launch, width) - 4) as usize,
                ..d
            }).place(i, launch, width) != landing(i, launch, width),
{
    lemma_last_landing_is(d.troops as nat, launch, width);
    let last = last_landing(d.troops as nat, launch, width);
    if index < d.troops && landing(index, launch, width) is Some {
        assert(flight(index, launch, width) is Some);
    }
    if 3 < d.end(launch, width) <= usize::MAX {
        let i = choose|i: nat|
            i < d.troops && (#[trigger] flight(i, launch, width)) is Some && 2 * i + flight(
                i,
                launch,
                width,
            )->0 == last;
        assert(landing(i, launch, width) is Some);
        let column = landing(i, launch, width)->0;
        let early = Deployment { frame: (d.end(launch, width) - 4) as usize, ..d };
        assert(flight(i, launch, width)->0 == (column - launch + 1) / 2);
        assert(early.place(i, launch, width) != landing(i, launch, width));
    }
}

// --- frames and the command line ---

/// A frame is laid out for its size, and the size is noted.
pub proof fn law_frame_size_is_noted(s: StateV, rows: usize, cols: usize)
    ensures
        s.laid_out(rows, cols).screen.viewport_rows == rows,
        s.laid_out(rows, cols).screen.viewport_cols == cols,
        s.laid_out(rows, cols).list == s.list,
        s.laid_out(rows, cols).nav == s.nav,
        s.laid_out(rows, cols).status == s.status,
{
}

/// The command line is let go at once for every message of the sidebar's own, and for no other.
pub proof fn law_command_line_is_let_go(name: Seq<char>)
    ensures
        is_ours(name) <==> name == "fujin_status"@ || name == "fujin_up"@ || name == "fujin_down"@
            || name == "fujin_go"@ || name == "fujin_mode"@ || name == "fujin_toggle_cwd"@ || name
            == "fujin_sync_state"@ || name == "fujin_read"@ || name == "fujin_command"@ || name
            == "fujin_selection"@ || name == "fujin_mark"@ || name == "fujin_preview"@ || name
            == "fujin_width"@ || name == "fujin_dismiss"@,
{
}

/// After a report of the panes the states are those that the report leads to: commands and reads
/// follow it, and what belongs to panes that are gone is dropped.
#[verifier::rlimit(40)]
pub proof fn law_panes_lead_to_states(s: StateV, m: PaneManifestV, answers: AnswersV)
    requires
        !s.me.is_preview,
    ensures
        ({
            let u = s.update(EventV::PaneUpdate(m), answers).0;
            let r = s.apply_command_states(m).apply_read_model(m);
            let kept = StateV {
                list: ListingV { panes: Some(m), ..r.list },
                ..r
            }.prune_stale_agents();
            &&& u.status == kept.status
            &&& u.list.pane_cwds == kept.list.pane_cwds
        }),
{
    let r = s.apply_command_states(m).apply_read_model(m);
    let c = StateV { list: ListingV { panes: Some(m), ..r.list }, ..r }.rebuild_selectable();
    let d = c.prune_stale_agents().learn_own_plugin_url(answers.plugin_url);
    lemma_siblings_keep_list(d);
    let e = d.push_state_to_new_siblings();
    lemma_focus_keeps_list(e, answers.focus);
    let f = e.refresh_focus(answers.focus);
    lemma_pending_keeps_list(f);
    lemma_cursor_inside(f.enter_nav_mode_if_pending());
}

} // verus!
