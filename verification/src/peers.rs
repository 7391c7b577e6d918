//! What holds between the sidebar and the world around it: the focus that it borrows and gives
//! back, the instances that it talks to, and the panes that it opens.

use vstd::prelude::*;

use crate::agent::AgentState;
use crate::attention::reported_once;
use crate::command::CommandState;
use crate::focus::{first_tiled, last_floating, lemma_tab_place, panes_at, ParkedFocus};
use crate::host::{
    Coordinates, Extent, HostCallV, Opening, PaneId, PaneInfoV, PaneManifestV, Sender,
};
use crate::ids::{ascending, group_views, lemma_ascending};
use crate::keys::{lists, selects};
use crate::laws::distinct_panes;
use crate::mark::id_text;
use crate::preview::PreviewState;
use crate::state::{FocusV, InstanceV, StateV};
use crate::summon::{has_instance, instances, is_delegate, stranded, Whereabouts};
use crate::sync::{messages, own_url, siblings_in, word};
use crate::text::{digits, lemma_parsed_digits, lemma_trimmed_digits, trim_start, trimmed};
use crate::triage::{has_pane, lemma_place_of, lemma_place_of_is};
use crate::wire::{MARK_PIPE, TOGGLE_CWD_PIPE};

verus! {

broadcast use group_views;

// --- the focus ---

/// The pane of this instance is in the tab, by the last report.
pub open spec fn lives_in(s: StateV, tab: usize) -> bool {
    s.me.own_plugin_id is Some && s.list.panes is Some && exists|k: int, i: int|
        0 <= k < s.list.panes->0.tabs.len() && s.list.panes->0.tabs[k].position == tab && 0 <= i
            < s.list.panes->0.tabs[k].panes.len() && (
        #[trigger] s.list.panes->0.tabs[k].panes[i]).is_plugin
            && s.list.panes->0.tabs[k].panes[i].id == s.me.own_plugin_id->0
}

proof fn lemma_same_tab(m: PaneManifestV, position: usize, k: int)
    requires
        reported_once(m),
        0 <= k < m.tabs.len(),
        m.tabs[k].position == position,
    ensures
        panes_at(m, position) == Some(m.tabs[k].panes),
        forall|h: int| 0 <= h < m.tabs.len() && (#[trigger] m.tabs[h]).position == position ==> h == k,
{
    assert forall|j: int| 0 <= j < k implies (#[trigger] m.tabs[j]).position != position by {}
    lemma_tab_place(m, position, k);
}

/// The instance that acts for a tab is the one whose pane is in it.
pub proof fn law_own_tab(s: StateV, tab: usize)
    requires
        s.list.panes is Some ==> reported_once(s.list.panes->0),
    ensures
        s.owns_tab(tab) <==> lives_in(s, tab),
{
    if s.list.panes is Some {
        let m = s.list.panes->0;
        if lives_in(s, tab) {
            let (k, i) = choose|k: int, i: int|
                0 <= k < m.tabs.len() && m.tabs[k].position == tab && 0 <= i
                    < m.tabs[k].panes.len() && (#[trigger] m.tabs[k].panes[i]).is_plugin
                    && m.tabs[k].panes[i].id == s.me.own_plugin_id->0;
            lemma_same_tab(m, tab, k);
            let panes = m.tabs[k].panes;
            assert(panes[i].is_plugin);
        }
        if s.owns_tab(tab) {
            if forall|j: int| 0 <= j < m.tabs.len() ==> (#[trigger] m.tabs[j]).position != tab {
                lemma_tab_place(m, tab, m.tabs.len() as int);
            }
            let k = choose|k: int| 0 <= k < m.tabs.len() && (#[trigger] m.tabs[k]).position == tab;
            lemma_same_tab(m, tab, k);
            let panes = m.tabs[k].panes;
            let i = choose|i: int|
                0 <= i < panes.len() && (#[trigger] panes[i]).is_plugin && panes[i].id
                    == s.me.own_plugin_id->0;
            assert(m.tabs[k].panes[i].is_plugin);
        }
    }
}

/// An answer about the focus speaks to the instance in that tab; without an answer the one that
/// was last reported visible takes itself to be meant.
pub proof fn law_who_is_on_screen(s: StateV, tab: usize, pane: PaneId)
    requires
        s.list.panes is Some ==> reported_once(s.list.panes->0),
    ensures
        s.is_visible_instance(Some((tab, pane))) <==> lives_in(s, tab),
        s.is_visible_instance(None) <==> s.me.visible,
{
    law_own_tab(s, tab);
}

/// The pane is a terminal in sight with the focus of its layer.
pub open spec fn works_in(p: PaneInfoV, floating: bool) -> bool {
    !p.is_plugin && !p.is_suppressed && p.is_focused && p.is_floating == floating
}

proof fn lemma_first_tiled(panes: Seq<PaneInfoV>, n: int)
    requires
        0 <= n <= panes.len(),
        forall|j: int| 0 <= j < n ==> !works_in(#[trigger] panes[j], false),
        n < panes.len() ==> works_in(panes[n], false),
    ensures
        n < panes.len() ==> first_tiled(panes) == Some(panes[n].id),
        n == panes.len() ==> first_tiled(panes) is None,
    decreases panes.len(),
{
    if panes.len() > 0 && n > 0 {
        assert(!works_in(panes[0], false));
        let rest = panes.drop_first();
        assert forall|j: int| 0 <= j < n - 1 implies !works_in(#[trigger] rest[j], false) by {
            assert(rest[j] == panes[j + 1]);
        }
        lemma_first_tiled(rest, n - 1);
    }
}

proof fn lemma_last_floating(panes: Seq<PaneInfoV>, n: int)
    requires
        -1 <= n < panes.len(),
        forall|j: int| n < j < panes.len() ==> !works_in(#[trigger] panes[j], true),
        n >= 0 ==> works_in(panes[n], true),
    ensures
        n >= 0 ==> last_floating(panes) == Some(panes[n].id),
        n < 0 ==> last_floating(panes) is None,
    decreases panes.len(),
{
    if panes.len() > 0 && n < panes.len() - 1 {
        assert(!works_in(panes[panes.len() - 1], true));
        let rest = panes.drop_last();
        assert forall|j: int| n < j < rest.len() implies !works_in(#[trigger] rest[j], true) by {
            assert(rest[j] == panes[j]);
        }
        lemma_last_floating(rest, n);
    }
}

/// Where the focus is on a plugin, the user's pane in the tab is the first terminal with the
/// focus of the tiled layer, and without one the last with that of the floating layer.
pub proof fn law_working_pane_of_a_tab(s: StateV, tab: usize, k: int, n: int)
    requires
        s.list.panes is Some,
        reported_once(s.list.panes->0),
        0 <= k < s.list.panes->0.tabs.len(),
        s.list.panes->0.tabs[k].position == tab,
    ensures
        ({
            let panes = s.list.panes->0.tabs[k].panes;
            let tiled = 0 <= n < panes.len() && works_in(panes[n], false) && forall|j: int|
                0 <= j < n ==> !works_in(#[trigger] panes[j], false);
            let no_tiled = forall|j: int|
                0 <= j < panes.len() ==> !works_in(#[trigger] panes[j], false);
            let floating = 0 <= n < panes.len() && works_in(panes[n], true) && forall|j: int|
                n < j < panes.len() ==> !works_in(#[trigger] panes[j], true);
            let no_floating = forall|j: int|
                0 <= j < panes.len() ==> !works_in(#[trigger] panes[j], true);
            &&& tiled ==> s.focused_terminal_in_tab(tab) == Some(panes[n].id)
            &&& no_tiled && floating ==> s.focused_terminal_in_tab(tab) == Some(panes[n].id)
            &&& no_tiled && no_floating ==> s.focused_terminal_in_tab(tab) is None
        }),
{
    let panes = s.list.panes->0.tabs[k].panes;
    lemma_same_tab(s.list.panes->0, tab, k);
    if 0 <= n < panes.len() && works_in(panes[n], false) && forall|j: int|
        0 <= j < n ==> !works_in(#[trigger] panes[j], false) {
        lemma_first_tiled(panes, n);
    }
    if forall|j: int| 0 <= j < panes.len() ==> !works_in(#[trigger] panes[j], false) {
        lemma_first_tiled(panes, panes.len() as int);
        if 0 <= n < panes.len() && works_in(panes[n], true) && forall|j: int|
            n < j < panes.len() ==> !works_in(#[trigger] panes[j], true) {
            lemma_last_floating(panes, n);
        }
        if forall|j: int| 0 <= j < panes.len() ==> !works_in(#[trigger] panes[j], true) {
            lemma_last_floating(panes, -1);
        }
    }
}

/// Entering nav mode borrows the focus of the pane that the user works in: the sidebar becomes
/// selectable, takes the focus and then the keys, in this order. It notes the pane to give the
/// focus back to.
pub proof fn law_nav_mode_borrows_the_focus(s: StateV, pane_id: u32, own: u32)
    requires
        s.focus.focused_pane == Some(pane_id),
        s.focus.focus_on_terminal,
        s.focus.focus_parked is None,
        s.me.own_plugin_id == Some(own),
        !s.me.summoned,
    ensures
        ({
            let t = s.enter_nav_mode();
            let n = t.calls.len();
            &&& t.nav.nav_mode
            &&& t.focus.focus_parked is Some
            &&& t.focus.focus_parked->0.pane_id == pane_id
            &&& !t.focus.focus_parked->0.confirmed
            &&& n >= s.calls.len() + 3
            &&& t.calls[n - 3] == HostCallV::SetSelectable(true)
            &&& t.calls[n - 2] == HostCallV::FocusPluginPane(own)
            &&& t.calls[n - 1] == HostCallV::InterceptKeyPresses
        }),
{
}

/// A floating pane that lends its focus is known to be floating, so that its layer comes up again
/// when the focus goes back.
pub proof fn law_borrowed_focus_knows_its_layer(s: StateV, n: int)
    requires
        0 <= n < s.list.selectable.len(),
        distinct_panes(s.list.selectable),
        s.focus.focused_pane == Some(s.list.selectable[n].pane_id),
        s.focus.focus_on_terminal,
        s.focus.focus_parked is None,
        s.me.own_plugin_id is Some,
        !s.me.summoned,
    ensures
        s.enter_nav_mode().focus.focus_parked->0.is_floating == s.list.selectable[n].is_floating,
{
    lemma_place_of_is(s.list.selectable, s.list.selectable[n].pane_id, n);
}

/// A summoned instance, one that holds a focus already, and one that found the focus on no
/// terminal borrow nothing: they only take the keys.
pub proof fn law_nothing_to_borrow(s: StateV)
    requires
        s.me.summoned || s.focus.focus_parked is Some || !s.focus.focus_on_terminal
            || s.focus.focused_pane is None,
    ensures
        ({
            let t = s.enter_nav_mode();
            &&& t.nav.nav_mode
            &&& t.focus == s.focus
            &&& t.calls.last() == HostCallV::InterceptKeyPresses
            &&& forall|i: int|
                s.calls.len() <= i < t.calls.len() ==> !((
                #[trigger] t.calls[i]) is FocusPluginPane)
        }),
{
}

/// Nav mode starts on the pane in focus, unless the focus is where it was when nav mode was left:
/// then it starts where it was left.
pub proof fn law_nav_mode_starts_at_focus(s: StateV, pane_id: u32, was: u32)
    requires
        s.focus.focused_pane == Some(pane_id),
        s.list.selectable.len() <= usize::MAX,
    ensures
        s.focus.focus_at_nav_exit != Some(pane_id) && lists(s, pane_id) ==> selects(
            s.enter_nav_mode(),
            pane_id,
        ),
        s.focus.focus_at_nav_exit == Some(pane_id) && s.focus.selection_at_nav_exit == Some(was)
            && lists(s, was) ==> selects(s.enter_nav_mode(), was),
        s.enter_nav_mode().list.selectable == s.list.selectable,
        s.enter_nav_mode().list.marked == s.list.marked,
{
    lemma_place_of(s.list.selectable, pane_id);
    lemma_place_of(s.list.selectable, was);
    if lists(s, pane_id) {
        let i = choose|i: int|
            0 <= i < s.list.selectable.len() && (#[trigger] s.list.selectable[i]).pane_id
                == pane_id;
        assert(s.list.selectable[i].pane_id == pane_id);
        assert(has_pane(s.list.selectable, pane_id));
    }
    if lists(s, was) {
        let i = choose|i: int|
            0 <= i < s.list.selectable.len() && (#[trigger] s.list.selectable[i]).pane_id == was;
        assert(s.list.selectable[i].pane_id == was);
        assert(has_pane(s.list.selectable, was));
    }
}

/// Leaving nav mode gives the borrowed focus back before the sidebar becomes unselectable: to
/// the pane that lent it, or to the selected one where that is gone.
pub proof fn law_focus_goes_back_first(s: StateV, parked: ParkedFocus)
    requires
        s.focus.focus_parked == Some(parked),
        s.nav.preview is None,
        lists(s, parked.pane_id) || s.list.selected < s.list.selectable.len(),
    ensures
        ({
            let t = s.exit_nav_mode();
            let n = s.calls.len() as int;
            let e = s.list.selectable[s.list.selected as int];
            &&& t.calls.len() >= n + 3
            &&& t.calls[n] == (if lists(s, parked.pane_id) {
                HostCallV::FocusPane(parked.pane_id, parked.is_floating)
            } else {
                HostCallV::FocusPane(e.pane_id, e.is_floating)
            })
            &&& t.calls[n + 1] == HostCallV::SetSelectable(false)
            &&& t.calls[n + 2] == HostCallV::ClearKeyPressesIntercepts
            &&& t.focus.focus_parked is None
        }),
{
    if lists(s, parked.pane_id) {
        let i = choose|i: int|
            0 <= i < s.list.selectable.len() && (#[trigger] s.list.selectable[i]).pane_id
                == parked.pane_id;
        assert(s.list.selectable[i].pane_id == parked.pane_id);
        assert(has_pane(s.list.selectable, parked.pane_id));
    }
}

/// A summoned instance closes itself when nav mode is left; a resident one never does.
pub proof fn law_only_summoned_close(s: StateV, own: u32)
    requires
        s.me.own_plugin_id == Some(own),
        s.nav.preview is None,
    ensures
        s.me.summoned ==> s.exit_nav_mode().calls.last() == HostCallV::ClosePluginPane(own),
        !s.me.summoned ==> forall|i: int|
            s.calls.len() <= i < s.exit_nav_mode().calls.len() ==> !((
            #[trigger] s.exit_nav_mode().calls[i]) is ClosePluginPane),
{
}

/// The focus on a terminal of the own tab is taken in: it is the pane in focus from now on. In
/// nav mode one that is not the pane known before leaves nav mode; outside the selection goes to
/// it.
#[verifier::rlimit(40)]
pub proof fn law_focus_on_a_terminal(s: StateV, tab: usize, id: u32)
    requires
        s.owns_tab(tab),
        s.focus.focus_parked is None,
        s.list.selectable.len() <= usize::MAX,
    ensures
        ({
            let t = s.refresh_focus(Some((tab, PaneId::Terminal(id))));
            &&& t.focus.focused_pane == Some(id)
            &&& t.focus.focus_on_terminal
            &&& !t.focus.pending_focus_resync
            &&& s.nav.nav_mode ==> (t.nav.nav_mode <==> s.focus.focused_pane == Some(id))
            &&& s.nav.nav_mode && s.focus.focused_pane == Some(id) ==> t.list == s.list
            &&& !s.nav.nav_mode && s.focus.focused_pane == Some(id)
                && !s.focus.pending_focus_resync ==> t.list == s.list
            &&& !s.nav.nav_mode && (s.focus.focused_pane != Some(id)
                || s.focus.pending_focus_resync) && lists(s, id) ==> selects(t, id)
        }),
{
    lemma_place_of(s.list.selectable, id);
    if lists(s, id) {
        let i = choose|i: int|
            0 <= i < s.list.selectable.len() && (#[trigger] s.list.selectable[i]).pane_id == id;
        assert(s.list.selectable[i].pane_id == id);
        assert(has_pane(s.list.selectable, id));
    }
    let seen = s.observes_focus(PaneId::Terminal(id));
    let u = seen.with_focus(
        FocusV { pending_focus_resync: false, focused_pane: Some(id), ..seen.focus },
    );
    assert(!u.leave_nav_mode().nav.nav_mode);
    assert(u.leave_nav_mode().focus.focused_pane == Some(id));
}

/// As long as the borrowed focus has not arrived at the sidebar, seeing it on the pane that lent
/// it disturbs nothing; once it has arrived, the park is confirmed.
#[verifier::rlimit(40)]
pub proof fn law_borrowed_focus_arrives(s: StateV, tab: usize, own: u32, parked: ParkedFocus)
    requires
        s.owns_tab(tab),
        s.nav.nav_mode,
        s.me.own_plugin_id == Some(own),
        s.focus.focus_parked == Some(parked),
        s.focus.focused_pane == Some(parked.pane_id),
    ensures
        ({
            let before = s.refresh_focus(Some((tab, PaneId::Terminal(parked.pane_id))));
            let after = s.refresh_focus(Some((tab, PaneId::Plugin(own))));
            &&& !parked.confirmed ==> before.nav.nav_mode && before.focus.focus_parked == Some(
                parked,
            ) && before.list == s.list && before.calls == s.calls
            &&& parked.confirmed ==> !before.nav.nav_mode && before.focus.focus_parked is None
            &&& after.nav.nav_mode
            &&& after.focus.focus_parked == Some(ParkedFocus { confirmed: true, ..parked })
            &&& after.focus.focused_pane == Some(parked.pane_id)
            &&& after.list == s.list
            &&& after.calls == s.calls
        }),
{
}

/// Without an answer nothing is concluded about the focus.
pub proof fn law_no_answer_no_change(s: StateV)
    ensures
        s.refresh_focus(None) == s,
{
}

// --- messages ---

/// A message to the siblings goes to each known one and to nobody else, and nothing else is
/// asked.
pub proof fn law_broadcast_reaches_siblings(
    s: StateV,
    pipe: Seq<char>,
    payload: Seq<char>,
    id: u32,
)
    requires
        s.me.known_siblings.finite(),
    ensures
        ({
            let t = s.broadcasts(pipe, payload);
            let new = t.calls.skip(s.calls.len() as int);
            &&& t.calls.take(s.calls.len() as int) == s.calls
            &&& new.contains(HostCallV::PipeMessageToPlugin(pipe, id, payload))
                <==> s.me.known_siblings.contains(id)
            &&& forall|i: int|
                0 <= i < new.len() ==> ((#[trigger] new[i]) matches HostCallV::PipeMessageToPlugin(
                    p,
                    _,
                    x,
                ) && p == pipe && x == payload)
            &&& new.len() == s.me.known_siblings.len()
        }),
{
    let ids = ascending(s.me.known_siblings);
    lemma_ascending(s.me.known_siblings);
    let t = s.broadcasts(pipe, payload);
    let new = t.calls.skip(s.calls.len() as int);
    let sent = messages(ids, pipe, payload);
    assert(new =~= sent);
    assert(t.calls.take(s.calls.len() as int) =~= s.calls);
    let call = HostCallV::PipeMessageToPlugin(pipe, id, payload);
    assert(ids.to_set().contains(id) <==> ids.contains(id));
    if s.me.known_siblings.contains(id) {
        let j = choose|j: int| 0 <= j < ids.len() && ids[j] == id;
        assert(new[j] == call);
    }
    if new.contains(call) {
        let j = choose|j: int| 0 <= j < new.len() && new[j] == call;
        assert(ids[j] == id);
        assert(ids.contains(id));
    }
    assert(ids.no_duplicates());
    ids.unique_seq_to_set();
}

proof fn lemma_siblings(panes: Seq<PaneInfoV>, own: u32, url: Seq<char>, id: u32)
    ensures
        siblings_in(panes, own, url).contains(id) <==> id != own && exists|i: int|
            0 <= i < panes.len() && (#[trigger] panes[i]).is_plugin && panes[i].id == id
                && panes[i].plugin_url == Some(url),
    decreases panes.len(),
{
    if panes.len() > 0 {
        let front = panes.drop_last();
        let last = panes.len() - 1;
        lemma_siblings(front, own, url, id);
        assert(forall|i: int| 0 <= i < last ==> front[i] == #[trigger] panes[i]);
        assert(forall|i: int| 0 <= i < last ==> panes[i] == #[trigger] front[i]);
        assert(panes[last] == panes.last());
    }
}

proof fn lemma_push_all(s: StateV, ids: Seq<u32>)
    ensures
        ({
            let t = s.push_all(ids);
            &&& t == (StateV { calls: t.calls, ..s })
            &&& s.calls.len() <= t.calls.len()
            &&& forall|i: int| 0 <= i < s.calls.len() ==> (#[trigger] t.calls[i]) == s.calls[i]
        }),
    decreases ids.len(),
{
    if ids.len() > 0 {
        lemma_push_all(s, ids.drop_last());
    }
}

/// The siblings are the other plugin panes of the same location, in whichever tab, and only these
/// are known after a report.
pub proof fn law_siblings_share_the_location(s: StateV, own: u32, url: Seq<char>, id: u32)
    requires
        s.me.own_plugin_id == Some(own),
        s.me.own_plugin_url == Some(url),
        s.list.panes is Some,
    ensures
        ({
            let panes = s.list.panes->0.flat();
            s.push_state_to_new_siblings().me.known_siblings.contains(id) <==> id != own && exists|
                i: int,
            |
                0 <= i < panes.len() && (#[trigger] panes[i]).is_plugin && panes[i].id == id
                    && panes[i].plugin_url == Some(url)
        }),
{
    let panes = s.list.panes->0.flat();
    lemma_siblings(panes, own, url, id);
    let siblings = siblings_in(panes, own, url);
    let newcomers = ascending(siblings.difference(s.me.known_siblings));
    let t = s.with_me(InstanceV { known_siblings: siblings, ..s.me });
    lemma_push_all(t.ask_siblings(), newcomers);
}

/// A newcomer is told first how the cwd rows stand; where agents are known it is told about
/// them, and where there are marks about these.
pub proof fn law_newcomer_is_told(s: StateV, id: u32)
    ensures
        ({
            let t = s.push_all_to(id);
            let n = s.calls.len() as int;
            &&& t == (StateV { calls: t.calls, ..s })
            &&& t.calls.len() > n
            &&& t.calls[n] == HostCallV::PipeMessageToPlugin(
                "fujin_toggle_cwd"@,
                id,
                if s.config.show_cwd {
                    "true"@
                } else {
                    "false"@
                },
            )
            &&& forall|i: int|
                n <= i < t.calls.len() ==> ((
                #[trigger] t.calls[i]) matches HostCallV::PipeMessageToPlugin(_, to, _) && to
                    == id)
            &&& !s.list.marked.is_empty() ==> t.calls.contains(
                HostCallV::PipeMessageToPlugin("fujin_mark"@, id, s.mark_text()),
            )
            &&& !s.status.agents.dom().is_empty() ==> t.calls.contains(
                HostCallV::PipeMessageToPlugin("fujin_sync_state"@, id, s.state_dump()),
            )
            &&& !s.status.commands.dom().is_empty() ==> t.calls.contains(
                HostCallV::PipeMessageToPlugin("fujin_command"@, id, s.status.command_dump()),
            )
        }),
{
    let a = s.sends(
        id,
        TOGGLE_CWD_PIPE@,
        word(s.config.show_cwd),
    ).push_width_to(id);
    let b = if s.list.marked.is_empty() {
        a
    } else {
        a.sends(id, MARK_PIPE@, s.mark_text())
    };
    let c = b.push_state_to(id);
    let t = s.push_all_to(id);
    if !s.list.marked.is_empty() {
        assert(t.calls[a.calls.len() as int] == HostCallV::PipeMessageToPlugin(
            "fujin_mark"@,
            id,
            s.mark_text(),
        ));
    }
    if !s.status.agents.dom().is_empty() {
        assert(t.calls[b.calls.len() as int] == HostCallV::PipeMessageToPlugin(
            "fujin_sync_state"@,
            id,
            s.state_dump(),
        ));
    }
    if !s.status.commands.dom().is_empty() {
        assert(t.calls[c.calls.len() as int] == HostCallV::PipeMessageToPlugin(
            "fujin_command"@,
            id,
            s.status.command_dump(),
        ));
    }
}

/// A sibling's selection is followed where the pane is listed, and changes nothing where it is
/// not.
pub proof fn law_selection_message(s: StateV, id: u32)
    requires
        s.list.selectable.len() <= usize::MAX,
    ensures
        lists(s, id) ==> selects(s.selection_message(Some(digits(id as nat))), id),
        !lists(s, id) ==> s.selection_message(Some(digits(id as nat))) == s,
        s.selection_message(None) == s,
{
    lemma_trimmed_digits(id as nat);
    lemma_parsed_digits(id as nat, u32::MAX as nat);
    lemma_place_of(s.list.selectable, id);
    if lists(s, id) {
        let i = choose|i: int|
            0 <= i < s.list.selectable.len() && (#[trigger] s.list.selectable[i]).pane_id == id;
        assert(s.list.selectable[i].pane_id == id);
        assert(has_pane(s.list.selectable, id));
    }
}

/// The cwd rows: `true` and `false` set them, no word flips them, and another word changes
/// nothing. Nothing else changes either way.
pub proof fn law_cwd_words(s: StateV, raw: Seq<char>)
    ensures
        s.toggle_cwd(None).config.show_cwd == !s.config.show_cwd,
        trimmed(raw) == "true"@ ==> s.toggle_cwd(Some(raw)).config.show_cwd,
        trimmed(raw) == "false"@ ==> !s.toggle_cwd(Some(raw)).config.show_cwd,
        trimmed(raw).len() == 0 ==> s.toggle_cwd(Some(raw)).config.show_cwd == !s.config.show_cwd,
        trimmed(raw).len() > 0 && trimmed(raw) != "true"@ && trimmed(raw) != "false"@
            ==> s.toggle_cwd(Some(raw)) == s,
        s.toggle_cwd(Some(raw)).list == s.list,
        s.toggle_cwd(Some(raw)).calls == s.calls,
{
    reveal_strlit("true");
    reveal_strlit("false");
    assert("true"@.len() == 4);
    assert("false"@.len() == 5);
}

/// The question for the agents is answered to the one who asked, with what is known, and by an
/// instance that knows any.
pub proof fn law_question_is_answered(s: StateV, asker: u32)
    ensures
        ({
            let t = s.sync_message(Some("?"@), Sender::Plugin(asker)).0;
            &&& s.status.agents.dom().is_empty() ==> t == s
            &&& !s.status.agents.dom().is_empty() ==> t.calls == s.calls.push(
                HostCallV::PipeMessageToPlugin("fujin_sync_state"@, asker, s.state_dump()),
            ) && t.status == s.status && t.list == s.list
            &&& s.sync_message(Some("?"@), Sender::Cli).0 == s
            &&& s.sync_message(Some("?"@), Sender::Keybind).0 == s
        }),
{
    reveal_strlit("?");
    assert("?"@[0] == '?');
    assert(trim_start("?"@) == "?"@);
    assert(trimmed("?"@) == "?"@);
}

/// The location of the plugin is learned once: from the own pane in the list, or else from the
/// host's answer. What is known stays.
pub proof fn law_location_is_learned_once(s: StateV, own: u32, answer: Option<Seq<char>>, n: int)
    requires
        s.me.own_plugin_id == Some(own),
    ensures
        s.me.own_plugin_url is Some ==> s.learn_own_plugin_url(answer) == s,
        s.me.own_plugin_url is None && s.list.panes is None ==> s.learn_own_plugin_url(
            answer,
        ).me.own_plugin_url == answer,
        s.me.own_plugin_url is None && s.list.panes is Some && 0 <= n
            < s.list.panes->0.flat().len() && s.list.panes->0.flat()[n].is_plugin
            && s.list.panes->0.flat()[n].id == own && s.list.panes->0.flat()[n].plugin_url is Some
            && (forall|j: int|
            0 <= j < n ==> !((#[trigger] s.list.panes->0.flat()[j]).is_plugin
                && s.list.panes->0.flat()[j].id == own)) ==> s.learn_own_plugin_url(
            answer,
        ).me.own_plugin_url == s.list.panes->0.flat()[n].plugin_url,
        s.me.own_plugin_url is None && s.list.panes is Some && (forall|j: int|
            0 <= j < s.list.panes->0.flat().len() ==> !((
            #[trigger] s.list.panes->0.flat()[j]).is_plugin && s.list.panes->0.flat()[j].id
                == own)) ==> s.learn_own_plugin_url(answer).me.own_plugin_url == answer,
{
    if s.list.panes is Some {
        let panes = s.list.panes->0.flat();
        if 0 <= n < panes.len() && panes[n].is_plugin && panes[n].id == own && (forall|j: int|
            0 <= j < n ==> !((#[trigger] panes[j]).is_plugin && panes[j].id == own)) {
            lemma_own_url(panes, own, n);
        }
        if forall|j: int|
            0 <= j < panes.len() ==> !((#[trigger] panes[j]).is_plugin && panes[j].id == own) {
            lemma_own_url(panes, own, panes.len() as int);
        }
    }
}

proof fn lemma_own_url(panes: Seq<PaneInfoV>, own: u32, n: int)
    requires
        0 <= n <= panes.len(),
        forall|j: int| 0 <= j < n ==> !((#[trigger] panes[j]).is_plugin && panes[j].id == own),
        n < panes.len() ==> panes[n].is_plugin && panes[n].id == own,
    ensures
        n < panes.len() ==> own_url(panes, own) == panes[n].plugin_url,
        n == panes.len() ==> own_url(panes, own) is None,
    decreases panes.len(),
{
    if panes.len() > 0 && n > 0 {
        assert(!(panes[0].is_plugin && panes[0].id == own));
        let rest = panes.drop_first();
        assert forall|j: int| 0 <= j < n - 1 implies !((#[trigger] rest[j]).is_plugin && rest[j].id
            == own) by {
            assert(rest[j] == panes[j + 1]);
        }
        lemma_own_url(rest, own, n - 1);
    }
}

// --- the panes that it opens ---

/// Asking for nav mode in a tab without a sidebar opens one at the left edge, 32 columns wide and
/// as high as the screen, pinned, from the own location; it knows that it was summoned.
pub proof fn law_summon_opens_a_sidebar(s: StateV, w: Whereabouts, tab: usize)
    requires
        w.focused_tab == Some(tab),
        s.calls.len() < s.summon(w).calls.len(),
        !s.has_summoned(tab, w.live),
    ensures
        s.me.own_plugin_url is Some,
        s.summon(w).calls.len() == s.calls.len() + 1,
        s.summon(w).calls.last() matches HostCallV::OpenFloating(url, settings, place, opening)
            && Some(url) == s.me.own_plugin_url && settings.len() > 0 && settings[0] == (
            "summoned"@,
            "true"@,
        ) && (settings.contains(("show_cwd"@, "true"@)) <==> s.config.show_cwd) && (
        settings.contains(("show_deploy_animation"@, "false"@))
            <==> !s.config.show_deploy_animation) && place == (Coordinates {
            x: 0,
            y: 0,
            width: Extent::Fixed(32),
            height: Extent::Percent(100),
            pinned: true,
        }) && opening == Opening::Summon(tab),
{
    reveal_strlit("summoned");
    reveal_strlit("show_cwd");
    reveal_strlit("show_deploy_animation");
    reveal_strlit("true");
    reveal_strlit("false");
    assert("summoned"@.len() == 8);
    assert("show_cwd"@.len() == 8);
    assert("summoned"@[1] == 'u');
    assert("show_cwd"@[1] == 'h');
    assert("show_deploy_animation"@.len() == 21);
    assert("true"@.len() == 4);
    assert("false"@.len() == 5);
    let settings = s.summon_config();
    let cwd = ("show_cwd"@, "true"@);
    let deploy = ("show_deploy_animation"@, "false"@);
    if s.config.show_cwd {
        assert(settings[1] == cwd);
    }
    if !s.config.show_deploy_animation {
        assert(settings[settings.len() - 1] == deploy);
    }
    assert(settings.contains(cwd) ==> s.config.show_cwd);
    assert(settings.contains(deploy) ==> !s.config.show_deploy_animation);
}

/// Asking again where this instance summoned a sidebar that is still alive closes that sidebar,
/// and opens none.
pub proof fn law_second_request_closes(s: StateV, w: Whereabouts, tab: usize)
    requires
        w.focused_tab == Some(tab),
        s.me.own_plugin_id is Some,
        s.me.own_plugin_url is Some,
        w.session is Some || s.list.panes is Some,
        s.me.summoned_panes.contains_key(tab),
        w.live.contains(s.me.summoned_panes[tab]),
    ensures
        s.summon(w).calls == s.calls.push(HostCallV::ClosePluginPane(s.me.summoned_panes[tab])),
        !s.summon(w).me.summoned_panes.contains_key(tab),
{
}

proof fn lemma_instances(panes: Seq<PaneInfoV>, url: Seq<char>, id: u32)
    ensures
        instances(panes, url).contains(id) <==> exists|i: int|
            0 <= i < panes.len() && (#[trigger] panes[i]).is_plugin && panes[i].id == id
                && panes[i].plugin_url == Some(url),
    decreases panes.len(),
{
    if panes.len() > 0 {
        let front = panes.drop_last();
        let last = panes.len() - 1;
        lemma_instances(front, url, id);
        assert(forall|i: int| 0 <= i < last ==> front[i] == #[trigger] panes[i]);
        assert(forall|i: int| 0 <= i < last ==> panes[i] == #[trigger] front[i]);
        assert(panes[last] == panes.last());
    }
}

/// The panes hold an instance of the plugin at this location with this id.
pub open spec fn runs(panes: Seq<PaneInfoV>, url: Seq<char>, id: u32) -> bool {
    exists|i: int|
        0 <= i < panes.len() && (#[trigger] panes[i]).is_plugin && panes[i].id == id
            && panes[i].plugin_url == Some(url)
}

/// A sidebar is opened if and only if the tab has none and this instance has the smallest id of
/// those that are alive.
#[verifier::rlimit(40)]
pub proof fn law_who_summons(s: StateV, w: Whereabouts, m: PaneManifestV, tab: usize, own: u32)
    requires
        w.focused_tab == Some(tab),
        w.session == Some(m),
        s.me.own_plugin_id == Some(own),
        s.me.own_plugin_url is Some,
        !(s.me.summoned_panes.contains_key(tab) && w.live.contains(s.me.summoned_panes[tab])),
        reported_once(m),
    ensures
        ({
            let url = s.me.own_plugin_url->0;
            let taken = exists|k: int, i: int|
                0 <= k < m.tabs.len() && m.tabs[k].position == tab && 0 <= i
                    < m.tabs[k].panes.len() && (#[trigger] m.tabs[k].panes[i]).is_plugin
                    && m.tabs[k].panes[i].plugin_url == Some(url);
            let first = runs(m.flat(), url, own) && forall|id: u32|
                id < own && #[trigger] w.live.contains(id) ==> !runs(m.flat(), url, id);
            &&& s.summon(w).calls.len() > s.calls.len() <==> !taken && first
            &&& taken || !first ==> s.summon(w) == s
        }),
{
    let url = s.me.own_plugin_url->0;
    let all = m.flat();
    assert forall|id: u32| instances(all, url).contains(id) <==> runs(all, url, id) by {
        lemma_instances(all, url, id);
    }
    let taken = exists|k: int, i: int|
        0 <= k < m.tabs.len() && m.tabs[k].position == tab && 0 <= i < m.tabs[k].panes.len() && (
        #[trigger] m.tabs[k].panes[i]).is_plugin && m.tabs[k].panes[i].plugin_url == Some(url);
    let holds = panes_at(m, tab) is Some && has_instance(
        panes_at(m, tab)->0,
        url,
    );
    assert(taken <==> holds) by {
        if taken {
            let (k, i) = choose|k: int, i: int|
                0 <= k < m.tabs.len() && m.tabs[k].position == tab && 0 <= i
                    < m.tabs[k].panes.len() && (#[trigger] m.tabs[k].panes[i]).is_plugin
                    && m.tabs[k].panes[i].plugin_url == Some(url);
            lemma_same_tab(m, tab, k);
            let panes = m.tabs[k].panes;
            assert(panes[i].is_plugin);
        }
        if holds {
            if forall|j: int| 0 <= j < m.tabs.len() ==> (#[trigger] m.tabs[j]).position != tab {
                lemma_tab_place(m, tab, m.tabs.len() as int);
            }
            let k = choose|k: int| 0 <= k < m.tabs.len() && (#[trigger] m.tabs[k]).position == tab;
            lemma_same_tab(m, tab, k);
            let panes = m.tabs[k].panes;
            let i = choose|i: int|
                0 <= i < panes.len() && (#[trigger] panes[i]).is_plugin && panes[i].plugin_url
                    == Some(url);
            assert(m.tabs[k].panes[i].is_plugin);
        }
    }
    let first = runs(all, url, own) && forall|id: u32|
        id < own && #[trigger] w.live.contains(id) ==> !runs(all, url, id);
    assert(first <==> is_delegate(instances(all, url), own, w.live)) by {
        if first {
            assert forall|id: u32| #[trigger] instances(all, url).contains(id) && id < own implies
                !w.live.contains(id) by {}
        }
    }
}

/// The sidebar that was opened is noted for its tab, put in its place, and told about the agents
/// where any are known.
pub proof fn law_summoned_is_noted(s: StateV, tab: usize, id: u32)
    ensures
        ({
            let t = s.summon_opened(tab, Some(PaneId::Plugin(id)));
            let n = s.calls.len() as int;
            &&& t.me.summoned_panes == s.me.summoned_panes.insert(tab, id)
            &&& t.calls[n] == HostCallV::ChangeCoordinates(
                PaneId::Plugin(id),
                Coordinates {
                    x: 0,
                    y: 0,
                    width: Extent::Fixed(32),
                    height: Extent::Percent(100),
                    pinned: true,
                },
            )
            &&& s.status.agents.dom().is_empty() ==> t.calls.len() == n + 1
            &&& !s.status.agents.dom().is_empty() ==> t.calls.len() == n + 2 && t.calls[n + 1]
                == HostCallV::PipeMessageToPlugin("fujin_sync_state"@, id, s.state_dump())
            &&& s.summon_opened(tab, None) == s
        }),
{
}

/// A floating instance acts as a summoned one; a tiled one does not become one.
pub proof fn law_floating_is_adopted(s: StateV, floating: bool)
    requires
        s.me.own_plugin_id is Some,
    ensures
        s.adopt_floating(floating).me.summoned <==> s.me.summoned || floating,
        !s.me.summoned && floating ==> s.adopt_floating(floating).me.pending_nav_entry,
        s.me.summoned || !floating ==> s.adopt_floating(floating) == s,
{
}

/// Nav mode that was asked for comes once there are panes to show and leave to show them, and
/// comes once.
pub proof fn law_pending_nav_mode(s: StateV)
    ensures
        ({
            let t = s.enter_nav_mode_if_pending();
            let ready = s.me.pending_nav_entry && s.me.permissions_granted
                && s.list.selectable.len() > 0;
            &&& !ready ==> t == s
            &&& ready ==> t.nav.nav_mode && !t.me.pending_nav_entry
        }),
{
}

/// The preview is opened right of the sidebar, 35 percent wide and as high as the screen, pinned,
/// from the own location, once.
pub proof fn law_preview_opens_beside(s: StateV)
    requires
        s.nav.preview is None,
        s.nav.jump is None,
        s.me.own_plugin_url is Some,
    ensures
        ({
            let t = s.toggle_preview();
            &&& t.nav.preview == Some(PreviewState { pane: None, opening: true, target: None })
            &&& t.calls == s.calls.push(
                HostCallV::OpenFloating(
                    s.me.own_plugin_url->0,
                    seq![("preview"@, "true"@)],
                    Coordinates {
                        x: 32,
                        y: 0,
                        width: Extent::Percent(35),
                        height: Extent::Percent(100),
                        pinned: true,
                    },
                    Opening::Preview,
                ),
            )
            &&& t.refresh_preview() == t
        }),
{
}

/// An open preview follows the selection: when another pane is lit its text is sent, once, under
/// its title; while the same pane is lit nothing is sent.
pub proof fn law_preview_follows_selection(s: StateV, preview: PreviewState, pane: u32, n: int)
    requires
        s.nav.preview == Some(preview),
        preview.pane == Some(pane),
        !preview.opening,
        s.nav.jump is None,
        s.nav.triage is None,
        s.nav.search is None,
        distinct_panes(s.list.selectable),
        s.list.selected == n,
        0 <= n < s.list.selectable.len(),
    ensures
        ({
            let t = s.refresh_preview();
            let e = s.list.selectable[n];
            &&& preview.target == Some(e.pane_id) ==> t == s
            &&& preview.target != Some(e.pane_id) ==> t.nav.preview->0.target == Some(e.pane_id)
                && t.calls.len() == s.calls.len() + 1 && (
            t.calls.last() matches HostCallV::SendSnapshot(target, to, title) && target
                == e.pane_id && to == pane && (trimmed(e.title).len() > 0 ==> title == e.title))
            &&& t.refresh_preview() == t
        }),
{
    lemma_place_of_is(s.list.selectable, s.list.selectable[n].pane_id, n);
}

/// The preview that the host opened is put in its place, and the focus comes back to the sidebar.
/// One that comes after the preview was closed is closed at once.
pub proof fn law_preview_arrives(s: StateV, id: u32, own: u32)
    requires
        s.me.own_plugin_id == Some(own),
    ensures
        ({
            let t = s.preview_opened(Some(PaneId::Plugin(id)));
            let n = s.calls.len() as int;
            &&& s.nav.preview is None ==> t.calls == s.calls.push(HostCallV::ClosePluginPane(id))
                && t.nav == s.nav
            &&& s.nav.preview is Some ==> t.nav.preview is Some && t.nav.preview->0.pane == Some(
                id,
            ) && !t.nav.preview->0.opening && t.calls.len() >= n + 2 && (
            t.calls[n] matches HostCallV::ChangeCoordinates(p, place) && p == PaneId::Plugin(id)
                && place.x == 32 && place.pinned) && t.calls[n + 1] == HostCallV::FocusPluginPane(
                own,
            )
            &&& s.nav.preview is Some ==> s.preview_opened(None).nav.preview is Some
                && !s.preview_opened(None).nav.preview->0.opening
        }),
{
}

// --- cleaning up and asking ---

/// Cleaning up closes the floating instances of the plugin other than this one and nothing else: no
/// tiled sidebar, no other plugin, no terminal.
pub proof fn law_dismiss_spares_the_rest(s: StateV, i: int)
    requires
        !s.me.summoned,
        s.me.own_plugin_url is Some,
        s.list.panes is Some,
        s.calls.len() <= i < s.dismiss().calls.len(),
    ensures
        s.dismiss().calls[i] matches HostCallV::ClosePluginPane(id) && Some(id)
            != s.me.own_plugin_id && exists|k: int|
            0 <= k < s.list.panes->0.flat().len() && (#[trigger] s.list.panes->0.flat()[k]).id == id
                && s.list.panes->0.flat()[k].is_plugin && s.list.panes->0.flat()[k].is_floating
                && s.list.panes->0.flat()[k].plugin_url == s.me.own_plugin_url,
{
    let panes = s.list.panes->0.flat();
    let url = s.me.own_plugin_url->0;
    let shut = stranded(panes, url, s.me.own_plugin_id);
    let n = i - s.calls.len();
    assert(s.dismiss().calls[i] == shut[n]);
    let k = lemma_stranded(panes, url, s.me.own_plugin_id, n);
    assert(panes[k].is_plugin);
}

proof fn lemma_stranded(panes: Seq<PaneInfoV>, url: Seq<char>, own: Option<u32>, n: int) -> (k: int)
    requires
        0 <= n < stranded(panes, url, own).len(),
    ensures
        0 <= k < panes.len(),
        stranded(panes, url, own)[n] == HostCallV::ClosePluginPane(panes[k].id),
        panes[k].is_plugin,
        panes[k].is_floating,
        panes[k].plugin_url == Some(url),
        Some(panes[k].id) != own,
    decreases panes.len(),
{
    let front = panes.drop_last();
    let rest = stranded(front, url, own);
    if n < rest.len() {
        let k = lemma_stranded(front, url, own, n);
        assert(front[k] == panes[k]);
        assert(stranded(panes, url, own)[n] == rest[n]);
        k
    } else {
        panes.len() - 1
    }
}

/// What an instance does not know it asks its siblings for: the width as long as it has none, and
/// the agents once.
pub proof fn law_asking_siblings(s: StateV, id: u32)
    requires
        s.me.known_siblings.finite(),
        s.me.known_siblings.contains(id),
    ensures
        ({
            let t = s.ask_siblings();
            let new = t.calls.skip(s.calls.len() as int);
            &&& t.me.state_requested
            &&& s.width.width_target is None && s.me.state_requested ==> new.contains(
                HostCallV::PipeMessageToPlugin("fujin_width"@, id, "?"@),
            )
            &&& s.width.width_target is Some && !s.me.state_requested ==> new.contains(
                HostCallV::PipeMessageToPlugin("fujin_sync_state"@, id, "?"@),
            )
            &&& s.width.width_target is Some && s.me.state_requested ==> t == s
            &&& t.list == s.list && t.status == s.status && t.width == s.width
        }),
{
    law_broadcast_reaches_siblings(s, "fujin_width"@, "?"@, id);
    let asked = s.with_me(InstanceV { state_requested: true, ..s.me });
    law_broadcast_reaches_siblings(asked, "fujin_sync_state"@, "?"@, id);
}

/// The selection that follows the focus is told to the siblings where it moved, and only there.
pub proof fn law_following_is_told(s: StateV, pane_id: u32, n: int)
    requires
        distinct_panes(s.list.selectable),
        0 <= n < s.list.selectable.len() <= usize::MAX,
        s.list.selectable[n].pane_id == pane_id,
    ensures
        s.follows(pane_id).list.selected == n,
        n == s.list.selected ==> s.follows(pane_id).calls == s.calls,
        n != s.list.selected ==> s.follows(pane_id).calls == s.broadcasts(
            "fujin_selection"@,
            digits(pane_id as nat),
        ).calls,
{
    lemma_place_of_is(s.list.selectable, pane_id, n);
}

/// To decide on a summon an instance has to know of every instance of the plugin whether it is
/// alive, and of the one that it summoned into the tab.
pub proof fn law_whom_to_ask_for(s: StateV, tab: usize, session: PaneManifestV, id: u32)
    requires
        s.me.own_plugin_url is Some,
        instances(session.flat(), s.me.own_plugin_url->0).finite(),
    ensures
        s.liveness_queries(tab, Some(session)).contains(id) <==> runs(
            session.flat(),
            s.me.own_plugin_url->0,
            id,
        ) || (s.me.summoned_panes.contains_key(tab) && s.me.summoned_panes[tab] == id),
{
    let url = s.me.own_plugin_url->0;
    let set = instances(session.flat(), url);
    lemma_instances(session.flat(), url, id);
    lemma_ascending(set);
    let ids = ascending(set);
    assert(ids.to_set().contains(id) <==> ids.contains(id));
    let all = s.liveness_queries(tab, Some(session));
    if ids.contains(id) {
        let k = choose|k: int| 0 <= k < ids.len() && ids[k] == id;
        assert(all[k] == id);
    }
    if s.me.summoned_panes.contains_key(tab) {
        assert(all[ids.len() as int] == s.me.summoned_panes[tab]);
    }
    if all.contains(id) {
        let k = choose|k: int| 0 <= k < all.len() && all[k] == id;
        if k < ids.len() {
            assert(ids[k] == id);
        }
    }
}

// --- what the siblings hear ---

/// The siblings hear of every change of the marks: of one that flips, and of all that are taken
/// off. With no mark to take off nothing is said.
pub proof fn law_marks_are_told(s: StateV, id: u32)
    ensures
        s.nav.triage is None && s.nav.search is None && selects(s, id) ==> s.toggle_mark().calls
            == s.broadcasts("fujin_mark"@, s.flip_mark(id).mark_text()).calls,
        !s.list.marked.is_empty() ==> s.clear_marks().calls == s.broadcasts(
            "fujin_mark"@,
            s.with_marks(Set::empty()).mark_text(),
        ).calls,
        s.list.marked.is_empty() ==> s.clear_marks() == s,
{
}

/// The siblings hear which panes were read, of those where something was to be read; where nothing
/// was, nothing is said.
pub proof fn law_reads_are_told(s: StateV, pane_id: u32)
    ensures
        ({
            let waits = (s.status.agents.contains_key(pane_id) && (
            s.status.agents[pane_id].state == AgentState::Done
                || s.status.agents[pane_id].state == AgentState::Blocked
                || s.status.agents[pane_id].state == AgentState::Error)) || (
            s.status.commands.contains_key(pane_id) && !s.status.commands[pane_id].read
                && s.status.commands[pane_id].state != CommandState::Working);
            &&& waits ==> s.read_pane(pane_id).calls == s.broadcasts(
                "fujin_read"@,
                id_text(seq![pane_id]),
            ).calls
            &&& !waits ==> s.read_pane(pane_id).calls == s.calls
        }),
{
}

/// Every jump tells the siblings which pane is selected, before the host is asked to focus it.
pub proof fn law_jumps_are_told(s: StateV, n: usize, id: u32)
    requires
        n < s.list.selectable.len(),
        s.me.known_siblings.finite(),
        s.me.known_siblings.contains(id),
    ensures
        s.jump_to(n).calls.contains(
            HostCallV::PipeMessageToPlugin(
                "fujin_selection"@,
                id,
                digits(s.list.selectable[n as int].pane_id as nat),
            ),
        ),
{
    let out = s.with_selected(n).exit_nav_mode();
    assert(out.list == s.with_selected(n).list);
    assert(out.me == s.me);
    let text = digits(s.list.selectable[n as int].pane_id as nat);
    law_broadcast_reaches_siblings(out, "fujin_selection"@, text, id);
    let told = out.broadcasts_selection();
    let new = told.calls.skip(out.calls.len() as int);
    let call = HostCallV::PipeMessageToPlugin("fujin_selection"@, id, text);
    let j = choose|j: int| 0 <= j < new.len() && new[j] == call;
    assert(s.jump_to(n).calls[out.calls.len() + j] == call);
}

proof fn lemma_told_all(s: StateV, ids: Seq<u32>, n: int)
    requires
        0 <= n < ids.len(),
    ensures
        s.push_all(ids).calls.contains(
            HostCallV::PipeMessageToPlugin("fujin_toggle_cwd"@, ids[n], word(s.config.show_cwd)),
        ),
        s.calls.len() <= s.push_all(ids).calls.len(),
        forall|i: int|
            s.calls.len() <= i < s.push_all(ids).calls.len() ==> ((
            #[trigger] s.push_all(ids).calls[i]) matches HostCallV::PipeMessageToPlugin(_, to, _)
                && ids.contains(to)),
    decreases ids.len(),
{
    let front = ids.drop_last();
    let last = ids.last();
    let f = s.push_all(front);
    lemma_push_all(s, front);
    law_newcomer_is_told(f, last);
    let t = s.push_all(ids);
    let call = HostCallV::PipeMessageToPlugin(
        "fujin_toggle_cwd"@,
        ids[n],
        word(s.config.show_cwd),
    );
    if n < front.len() {
        lemma_told_all(s, front, n);
        assert(front[n] == ids[n]);
        let k = choose|k: int| 0 <= k < f.calls.len() && f.calls[k] == call;
        lemma_keeps_calls(f, last);
        assert(t.calls[k] == call);
    } else {
        assert(t.calls[f.calls.len() as int] == call);
    }
    assert forall|i: int| s.calls.len() <= i < t.calls.len() implies ((
    #[trigger] t.calls[i]) matches HostCallV::PipeMessageToPlugin(_, to, _) && ids.contains(
        to,
    )) by {
        assert(ids[ids.len() - 1] == last);
        if i < f.calls.len() {
            lemma_keeps_calls(f, last);
            assert(front.len() > 0) by {
                if front.len() == 0 {
                    assert(f == s);
                }
            }
            lemma_told_all(s, front, 0);
            assert(t.calls[i] == f.calls[i]);
            let to = f.calls[i]->PipeMessageToPlugin_1;
            assert(front.contains(to));
            let k = choose|k: int| 0 <= k < front.len() && front[k] == to;
            assert(ids[k] == to);
        }
    }
}

proof fn lemma_keeps_calls(s: StateV, id: u32)
    ensures
        s.calls.len() <= s.push_all_to(id).calls.len(),
        forall|i: int| 0 <= i < s.calls.len() ==> (#[trigger] s.push_all_to(id).calls[i]) == s.calls[i],
{
}

/// Those who are new among the siblings are told how the cwd rows stand; where nobody is new
/// nothing is said.
pub proof fn law_newcomers_are_told(s: StateV, own: u32, url: Seq<char>, id: u32)
    requires
        s.me.own_plugin_id == Some(own),
        s.me.own_plugin_url == Some(url),
        s.list.panes is Some,
        siblings_in(s.list.panes->0.flat(), own, url).finite(),
    ensures
        ({
            let there = id != own && runs(s.list.panes->0.flat(), url, id);
            let t = s.push_state_to_new_siblings();
            &&& there && !s.me.known_siblings.contains(id) ==> t.calls.contains(
                HostCallV::PipeMessageToPlugin(
                    "fujin_toggle_cwd"@,
                    id,
                    word(s.config.show_cwd),
                ),
            )
            &&& siblings_in(s.list.panes->0.flat(), own, url).subset_of(s.me.known_siblings)
                ==> t.calls == s.calls
        }),
{
    let panes = s.list.panes->0.flat();
    lemma_siblings(panes, own, url, id);
    let siblings = siblings_in(panes, own, url);
    let fresh = siblings.difference(s.me.known_siblings);
    let newcomers = ascending(fresh);
    lemma_ascending(fresh);
    let known = s.with_me(InstanceV { known_siblings: siblings, ..s.me });
    let asked = known.ask_siblings();
    assert(newcomers.to_set().contains(id) <==> newcomers.contains(id));
    if fresh.contains(id) {
        let n = choose|n: int| 0 <= n < newcomers.len() && newcomers[n] == id;
        lemma_told_all(asked, newcomers, n);
    }
    if siblings.subset_of(s.me.known_siblings) {
        assert(fresh =~= Set::empty());
        if newcomers.len() > 0 {
            assert(newcomers.to_set().contains(newcomers[0]));
        }
    }
}

} // verus!
