//! What the keys do, mode by mode: where each leads, and what it leaves as it was.

use vstd::prelude::*;

use crate::agent::AgentState;
use crate::command::CommandState;
use crate::host::{BareKey, HostCallV, Key, PaneId};
use crate::ids::group_views;
use crate::jump::{first_row, row_number, JumpStateV};
use crate::laws::{distinct_panes, in_tree};
use crate::mark::panes_in;
use crate::plugin::{AnswersV, EventV};
use crate::preview::PreviewState;
use crate::search::{index_of_id, SearchPhase};
use crate::state::{NavV, SelectableV, StateV};
use crate::termination::{ending, endings, Termination};
use crate::text::begins_with;
use crate::triage::{has_pane, lemma_place_of, lemma_place_of_is, place_of};
use crate::wire::MARK_PIPE;

verus! {

broadcast use group_views;

/// No modifier but Shift is held.
pub open spec fn plain(key: Key) -> bool {
    !key.ctrl && !key.alt && !key.command
}

/// The key is this character.
pub open spec fn types(key: Key, c: char) -> bool {
    plain(key) && key.bare == BareKey::Char(c)
}

/// The host is asked to focus this pane, and asked to focus nothing else after that.
pub open spec fn focus_goes_to(calls: Seq<HostCallV>, pane_id: u32, float: bool) -> bool {
    exists|i: int|
        0 <= i < calls.len() && (#[trigger] calls[i]) == HostCallV::FocusPane(pane_id, float)
            && focuses_nothing(calls, i + 1)
}

/// No request from this one on focuses a pane.
pub open spec fn focuses_nothing(calls: Seq<HostCallV>, from: int) -> bool {
    forall|j: int|
        from <= j < calls.len() ==> !((#[trigger] calls[j]) is FocusPane) && !(
        calls[j] is FocusPluginPane)
}

/// Some row of the list is this pane.
pub open spec fn lists(s: StateV, pane_id: u32) -> bool {
    exists|i: int|
        0 <= i < s.list.selectable.len() && (#[trigger] s.list.selectable[i]).pane_id == pane_id
}

/// The row of the selection is this pane.
pub open spec fn selects(s: StateV, pane_id: u32) -> bool {
    s.list.selected < s.list.selectable.len()
        && s.list.selectable[s.list.selected as int].pane_id == pane_id
}

// --- what the preview and messages leave alone ---

proof fn lemma_broadcasts(s: StateV, pipe: Seq<char>, payload: Seq<char>)
    ensures
        s.calls.len() <= s.broadcasts(pipe, payload).calls.len(),
        forall|i: int|
            0 <= i < s.calls.len() ==> (#[trigger] s.broadcasts(pipe, payload).calls[i])
                == s.calls[i],
        forall|i: int|
            s.calls.len() <= i < s.broadcasts(pipe, payload).calls.len() ==> (
            #[trigger] s.broadcasts(pipe, payload).calls[i]) is PipeMessageToPlugin,
{
}

proof fn lemma_tells_selection(s: StateV)
    ensures
        ({
            let t = s.broadcasts_selection();
            &&& t == StateV { calls: t.calls, ..s }
            &&& s.calls.len() <= t.calls.len()
            &&& forall|i: int| 0 <= i < s.calls.len() ==> (#[trigger] t.calls[i]) == s.calls[i]
            &&& forall|i: int|
                s.calls.len() <= i < t.calls.len() ==> (
                #[trigger] t.calls[i]) is PipeMessageToPlugin
        }),
{
}

/// The preview follows whatever else happens: it changes nothing but itself and what it asks
/// of the host, and it takes no focus.
#[verifier::rlimit(40)]
pub proof fn law_preview_follows_quietly(s: StateV)
    ensures
        ({
            let t = s.refresh_preview();
            &&& t == (StateV {
                nav: NavV { preview: t.nav.preview, ..s.nav },
                calls: t.calls,
                ..s
            })
            &&& t.nav.preview is Some == s.nav.preview is Some
            &&& s.nav.preview is None ==> t == s
            &&& s.calls.len() <= t.calls.len()
            &&& forall|i: int| 0 <= i < s.calls.len() ==> (#[trigger] t.calls[i]) == s.calls[i]
            &&& focuses_nothing(t.calls, s.calls.len() as int)
        }),
{
}

// --- where keys go ---

/// Keys reach the sidebar in nav mode only. There each key does what it does in the mode that
/// is open.
pub proof fn law_keys_need_nav_mode(s: StateV, key: Key, answers: AnswersV)
    requires
        !s.me.is_preview,
    ensures
        ({
            let t = s.update(EventV::InterceptedKeyPress(key), answers).0;
            let u = s.nav_key(key).0;
            &&& s.nav.nav_mode ==> t.nav == u.nav && t.list == u.list && t.status == u.status
                && t.focus == u.focus && t.me == u.me && t.config == u.config
            &&& !s.nav.nav_mode ==> t.nav == s.nav && t.list == s.list && t.status == s.status
                && t.focus == s.focus && t.me == s.me && t.config == s.config
        }),
{
}

/// The question mark opens the help in every mode but while a query is typed, and the next key,
/// whichever it is, closes it. Nothing else changes.
pub proof fn law_question_mark_helps(s: StateV, key: Key, next: Key)
    requires
        types(key, '?'),
        !s.nav.help_overlay,
        !(s.nav.search is Some && s.nav.search->0.phase == SearchPhase::Editing),
    ensures
        s.nav_key(key).0.nav.help_overlay,
        s.nav_key(key).0 == (StateV {
            nav: NavV { help_overlay: true, ..s.nav },
            ..s
        }),
        s.nav_key(key).0.nav_key(next).0 == s,
{
}

/// Leaving nav mode without a jump takes the selection back to the pane in focus.
pub proof fn law_leaving_selects_the_focus(s: StateV, pane_id: u32)
    requires
        s.focus.focused_pane == Some(pane_id),
        lists(s, pane_id),
        s.list.selectable.len() <= usize::MAX,
    ensures
        !s.leave_nav_mode().nav.nav_mode,
        selects(s.leave_nav_mode(), pane_id),
        s.leave_nav_mode().list.selectable == s.list.selectable,
{
    lemma_place_of(s.list.selectable, pane_id);
    assert(has_pane(s.list.selectable, pane_id)) by {
        let i = choose|i: int|
            0 <= i < s.list.selectable.len() && (#[trigger] s.list.selectable[i]).pane_id
                == pane_id;
        assert(s.list.selectable[i].pane_id == pane_id);
    }
    let t = s.exit_nav_mode();
    assert(t.list == s.list);
    assert(t.focus.focused_pane == s.focus.focused_pane);
}

/// A key with a modifier leaves nav mode from the tree, the triage list, the numbers and the
/// prompt alike, and ends nothing: no pane is closed or killed, no mark is lost.
#[verifier::rlimit(40)]
pub proof fn law_modifiers_leave(s: StateV, key: Key)
    requires
        !plain(key),
        !s.nav.help_overlay,
        s.nav.search is None,
    ensures
        ({
            let t = s.nav_key(key).0;
            &&& !t.nav.nav_mode
            &&& t.list.marked == s.list.marked
            &&& t.status == s.status
            &&& ends_nothing(t.calls, s.calls.len() as int)
        }),
{
    lemma_leaving(s);
}

/// No request from this one on closes or kills a terminal.
pub open spec fn ends_nothing(calls: Seq<HostCallV>, from: int) -> bool {
    forall|j: int|
        from <= j < calls.len() ==> !((#[trigger] calls[j]) is ClosePane) && !(
        calls[j] is SendSigkill)
}

proof fn lemma_leaving(s: StateV)
    ensures
        ({
            let t = s.leave_nav_mode();
            &&& !t.nav.nav_mode
            &&& t.nav.preview is None
            &&& in_tree(t)
            &&& t.list.marked == s.list.marked
            &&& t.list.selectable == s.list.selectable
            &&& t.status == s.status
            &&& s.calls.len() <= t.calls.len()
            &&& forall|i: int| 0 <= i < s.calls.len() ==> (#[trigger] t.calls[i]) == s.calls[i]
            &&& ends_nothing(t.calls, s.calls.len() as int)
        }),
{
    let t = s.exit_nav_mode();
    assert(t.list == s.list && t.status == s.status);
    match t.focus.focused_pane {
        Some(focused) => {
            lemma_tells_selection(t.select(focused));
        },
        None => {},
    }
}

// --- the tree ---

/// Down, Tab and `j` go one row down, Up and `k` one row up, `g` to the first row and `G` to the
/// last. The ends hold. Nav mode goes on, nothing is marked, read or focused by it.
#[verifier::rlimit(40)]
pub proof fn law_tree_moves(s: StateV, key: Key)
    requires
        in_tree(s),
        plain(key),
        s.list.selected < s.list.selectable.len() <= usize::MAX,
        key.bare == BareKey::Down || key.bare == BareKey::Tab || key.bare == BareKey::Char('j')
            || key.bare == BareKey::Up || key.bare == BareKey::Char('k') || key.bare
            == BareKey::Char('g') || key.bare == BareKey::Char('G'),
    ensures
        ({
            let t = s.nav_key(key).0;
            let at = s.list.selected as int;
            let last = s.list.selectable.len() - 1;
            &&& (key.bare == BareKey::Down || key.bare == BareKey::Tab || key.bare
                == BareKey::Char('j')) && at < last ==> t.list.selected == at + 1
            &&& (key.bare == BareKey::Down || key.bare == BareKey::Tab || key.bare
                == BareKey::Char('j')) && at == last ==> t.list.selected == at
            &&& (key.bare == BareKey::Up || key.bare == BareKey::Char('k')) && at > 0
                ==> t.list.selected == at - 1
            &&& (key.bare == BareKey::Up || key.bare == BareKey::Char('k')) && at == 0
                ==> t.list.selected == 0
            &&& key.bare == BareKey::Char('g') ==> t.list.selected == 0
            &&& key.bare == BareKey::Char('G') ==> t.list.selected == last
            &&& t.nav.nav_mode == s.nav.nav_mode
            &&& in_tree(t)
            &&& t.list.selectable == s.list.selectable
            &&& t.list.marked == s.list.marked
            &&& t.status == s.status
            &&& focuses_nothing(t.calls, s.calls.len() as int)
        }),
{
    let moved = s.nav_command(key.bare);
    lemma_tells_selection(moved);
    law_preview_follows_quietly(moved.broadcasts_selection());
}

/// Enter, Space and `l` jump: nav mode is left, the selection stays, and the focus goes to the
/// selected pane, whatever else is asked of the host.
#[verifier::rlimit(40)]
pub proof fn law_tree_jumps(s: StateV, key: Key)
    requires
        in_tree(s),
        plain(key),
        s.list.selected < s.list.selectable.len(),
        key.bare == BareKey::Enter || key.bare == BareKey::Char(' ') || key.bare
            == BareKey::Char('l'),
    ensures
        ({
            let t = s.nav_key(key).0;
            let e = s.list.selectable[s.list.selected as int];
            &&& !t.nav.nav_mode
            &&& in_tree(t)
            &&& t.list == s.list
            &&& focus_goes_to(t.calls, e.pane_id, e.is_floating)
        }),
{
    let e = s.list.selectable[s.list.selected as int];
    let out = s.exit_nav_mode();
    assert(out.list == s.list);
    let focused = out.focus_selected();
    let i = out.calls.len() as int;
    assert(focused.calls[i] == HostCallV::FocusPane(e.pane_id, e.is_floating));
    lemma_tells_selection(focused);
    let t = focused.broadcasts_selection();
    assert(t.nav.preview is None);
    assert(t.calls[i] == focused.calls[i]);
    assert(focuses_nothing(t.calls, i + 1));
    assert(s.nav_key(key).0 == t);
}

/// `/`, `t`, `n` and `d` open the search, the triage list, the numbers and the prompt: each its
/// own and no other. The selection stays.
#[verifier::rlimit(40)]
pub proof fn law_tree_opens_modes(s: StateV, key: Key)
    requires
        in_tree(s),
        plain(key),
        s.list.selected < s.list.selectable.len() <= usize::MAX,
        key.bare == BareKey::Char('/') || key.bare == BareKey::Char('t') || key.bare
            == BareKey::Char('n') || key.bare == BareKey::Char('d'),
    ensures
        ({
            let t = s.nav_key(key).0;
            let here = s.list.selectable[s.list.selected as int].pane_id;
            &&& t.nav.nav_mode == s.nav.nav_mode
            &&& t.list == s.list
            &&& t.nav.search is Some <==> key.bare == BareKey::Char('/')
            &&& t.nav.triage is Some <==> key.bare == BareKey::Char('t')
            &&& t.nav.jump is Some <==> key.bare == BareKey::Char('n')
            &&& t.nav.termination is Some <==> key.bare == BareKey::Char('d')
            &&& key.bare == BareKey::Char('/') ==> t.nav.search->0.query.len() == 0
                && t.nav.search->0.phase == SearchPhase::Editing && t.nav.search->0.saved == Some(
                here,
            )
            &&& key.bare == BareKey::Char('t') ==> t.nav.triage->0.cursor is None
                && t.nav.triage->0.saved == Some(here)
            &&& key.bare == BareKey::Char('n') ==> t.nav.jump->0.buffer.len() == 0
        }),
{
    let moved = s.nav_command(key.bare);
    lemma_tells_selection(moved);
    law_preview_follows_quietly(moved.broadcasts_selection());
}

/// `m` flips the mark of the selected pane and of no other; `M` takes all marks off. Nav mode
/// goes on and the selection stays.
#[verifier::rlimit(40)]
pub proof fn law_tree_marks(s: StateV, key: Key, pane_id: u32)
    requires
        in_tree(s),
        plain(key),
        s.list.selected < s.list.selectable.len(),
        key.bare == BareKey::Char('m') || key.bare == BareKey::Char('M'),
    ensures
        ({
            let t = s.nav_key(key).0;
            let here = s.list.selectable[s.list.selected as int].pane_id;
            &&& key.bare == BareKey::Char('m') ==> (t.list.marked.contains(pane_id) <==> (
            s.list.marked.contains(pane_id) != (pane_id == here)))
            &&& key.bare == BareKey::Char('M') ==> !t.list.marked.contains(pane_id)
            &&& t.list.selected == s.list.selected
            &&& t.list.selectable == s.list.selectable
            &&& t.nav.nav_mode == s.nav.nav_mode
            &&& in_tree(t)
        }),
{
    let moved = s.nav_command(key.bare);
    lemma_tells_selection(moved);
    law_preview_follows_quietly(moved.broadcasts_selection());
    if key.bare == BareKey::Char('M') && s.list.marked.is_empty() {
        assert(s.list.marked =~= Set::empty());
    }
}

/// `p` opens the preview, and closes it where it is open. The pane of one that is closed is
/// closed with it.
#[verifier::rlimit(40)]
pub proof fn law_tree_previews(s: StateV, key: Key)
    requires
        in_tree(s),
        types(key, 'p'),
    ensures
        ({
            let t = s.nav_key(key).0;
            &&& t.nav.preview is Some <==> s.nav.preview is None
            &&& s.nav.preview is Some && s.nav.preview->0.pane is Some ==> t.calls.len()
                > s.calls.len() && t.calls[s.calls.len() as int] == HostCallV::ClosePluginPane(
                s.nav.preview->0.pane->0,
            )
            &&& t.list == s.list
            &&& t.nav.nav_mode == s.nav.nav_mode
            &&& in_tree(t)
        }),
{
    let moved = s.nav_command(key.bare);
    if s.nav.preview is None {
        law_preview_follows_quietly(moved);
    }
    lemma_tells_selection(moved);
    law_preview_follows_quietly(moved.broadcasts_selection());
}

/// `r` marks the pane in the preview as read, and only while there is a preview; without one it
/// leaves nav mode like any key without a meaning. What reads is the pane of the row that is lit.
#[verifier::rlimit(40)]
pub proof fn law_r_reads_the_preview(s: StateV, key: Key, pane_id: u32)
    requires
        in_tree(s),
        types(key, 'r'),
        s.list.selected < s.list.selectable.len(),
    ensures
        ({
            let t = s.nav_key(key).0;
            let here = s.list.selectable[s.list.selected as int].pane_id;
            &&& s.nav.preview is None ==> !t.nav.nav_mode && t.status == s.status
            &&& s.nav.preview is Some ==> t.nav.nav_mode == s.nav.nav_mode && in_tree(t) && t.list
                == s.list
            &&& s.nav.preview is Some && s.status.agents.contains_key(pane_id)
                ==> t.status.agents.contains_key(pane_id) && t.status.agents[pane_id].state == (
            if pane_id == here && s.status.agents[pane_id].state != AgentState::Working {
                AgentState::Idle
            } else {
                s.status.agents[pane_id].state
            })
            &&& s.nav.preview is Some && s.status.commands.contains_key(pane_id)
                ==> t.status.commands.contains_key(pane_id) && t.status.commands[pane_id].state
                == s.status.commands[pane_id].state && t.status.commands[pane_id].read == (
            s.status.commands[pane_id].read || (pane_id == here
                && s.status.commands[pane_id].state != CommandState::Working))
        }),
{
    let here = s.list.selectable[s.list.selected as int].pane_id;
    lemma_leaving(s);
    let moved = s.nav_command(key.bare);
    assert(s.nav.preview is Some ==> moved.status == s.status.read(here, true));
    lemma_tells_selection(moved);
    law_preview_follows_quietly(moved.broadcasts_selection());
}

// --- the search ---

/// In either phase of a search, Enter on a listed pane jumps to it: the pane is selected, nav
/// mode is left with the search, and the last thing asked of the host is to focus the pane.
#[verifier::rlimit(40)]
pub proof fn law_search_enter_jumps(s: StateV, key: Key, n: int)
    requires
        s.nav.search is Some,
        !s.nav.help_overlay,
        plain(key),
        key.bare == BareKey::Enter,
        0 <= n < s.list.selectable.len() <= usize::MAX,
        distinct_panes(s.list.selectable),
        s.nav.search->0.cursor == Some(s.list.selectable[n].pane_id),
    ensures
        ({
            let t = s.nav_key(key).0;
            let e = s.list.selectable[n];
            &&& t.list.selected == n
            &&& selects(t, e.pane_id)
            &&& !t.nav.nav_mode
            &&& t.nav.search is None
            &&& t.calls.len() > 0
            &&& t.calls.last() == HostCallV::FocusPane(e.pane_id, e.is_floating)
            &&& t.list.marked == s.list.marked
            &&& t.status == s.status
        }),
{
    let id = s.list.selectable[n].pane_id;
    lemma_place_of_is(s.list.selectable, id, n);
    let out = s.with_selected(n as usize).exit_nav_mode();
    assert(out.list == s.with_selected(n as usize).list);
    assert(out.status == s.status);
    let t = s.jump_to(n as usize);
    assert(t.nav.preview is None);
}

/// In either phase Enter without a pane under the cursor does nothing to the list and goes
/// nowhere.
#[verifier::rlimit(40)]
pub proof fn law_search_enter_needs_a_hit(s: StateV, key: Key)
    requires
        s.nav.search is Some,
        !s.nav.help_overlay,
        plain(key),
        key.bare == BareKey::Enter,
        s.nav.search->0.cursor is None,
    ensures
        s.nav_key(key).0.list == s.list,
        s.nav_key(key).0.nav.nav_mode == s.nav.nav_mode,
        s.nav_key(key).0.nav.search == s.nav.search,
        focuses_nothing(s.nav_key(key).0.calls, s.calls.len() as int),
{
    law_preview_follows_quietly(s);
}

proof fn lemma_panes_in_front(list: Seq<SelectableV>, set: Set<u32>, n: int)
    requires
        0 <= n <= list.len(),
    ensures
        panes_in(list.take(n), set).len() <= panes_in(list, set).len(),
        panes_in(list, set).take(panes_in(list.take(n), set).len() as int) == panes_in(
            list.take(n),
            set,
        ),
    decreases list.len() - n,
{
    let short = panes_in(list.take(n), set);
    if n < list.len() {
        lemma_panes_in_front(list, set, n + 1);
        let long = panes_in(list.take(n + 1), set);
        assert(list.take(n + 1).drop_last() =~= list.take(n));
        assert(long.take(short.len() as int) =~= short);
        assert(panes_in(list, set).take(short.len() as int) =~= panes_in(list, set).take(
            long.len() as int,
        ).take(short.len() as int));
    } else {
        assert(list.take(n) =~= list);
        assert(panes_in(list, set).take(short.len() as int) =~= short);
    }
}

/// The pane at `n`, if it is in the set, stands behind all those of the set above it.
proof fn lemma_panes_in_at(list: Seq<SelectableV>, set: Set<u32>, n: int)
    requires
        0 <= n < list.len(),
        set.contains(list[n].pane_id),
    ensures
        panes_in(list.take(n), set).len() < panes_in(list, set).len(),
        panes_in(list, set)[panes_in(list.take(n), set).len() as int] == list[n].pane_id,
{
    let short = panes_in(list.take(n), set);
    let long = panes_in(list.take(n + 1), set);
    lemma_panes_in_front(list, set, n + 1);
    assert(list.take(n + 1).drop_last() =~= list.take(n));
    assert(list.take(n + 1).last() == list[n]);
    assert(long == short.push(list[n].pane_id));
    assert(panes_in(list, set).take(long.len() as int)[short.len() as int] == list[n].pane_id);
}

proof fn lemma_panes_in_source(list: Seq<SelectableV>, set: Set<u32>, k: int) -> (n: int)
    requires
        0 <= k < panes_in(list, set).len(),
    ensures
        0 <= n < list.len(),
        set.contains(list[n].pane_id),
        panes_in(list, set)[k] == list[n].pane_id,
        panes_in(list.take(n), set).len() == k,
    decreases list.len(),
{
    let front = list.drop_last();
    let rest = panes_in(front, set);
    if k < rest.len() {
        let n = lemma_panes_in_source(front, set, k);
        assert(front.take(n) =~= list.take(n));
        assert(front[n] == list[n]);
        n
    } else {
        assert(list.take(list.len() - 1) =~= front);
        list.len() - 1
    }
}

proof fn lemma_panes_in_same(list: Seq<SelectableV>, set: Set<u32>, a: int, b: int)
    requires
        0 <= a <= b <= list.len(),
        forall|i: int| a <= i < b ==> !set.contains((#[trigger] list[i]).pane_id),
    ensures
        panes_in(list.take(b), set) == panes_in(list.take(a), set),
    decreases b - a,
{
    if a < b {
        lemma_panes_in_same(list, set, a, b - 1);
        assert(list.take(b).drop_last() =~= list.take(b - 1));
        assert(list.take(b).last() == list[b - 1]);
    }
}

proof fn lemma_index_of(ids: Seq<u32>, id: u32, n: int)
    requires
        0 <= n < ids.len(),
        ids[n] == id,
        forall|j: int| 0 <= j < n ==> ids[j] != id,
    ensures
        index_of_id(ids, id) == n,
    decreases n,
{
    if n > 0 {
        assert(ids[0] != id);
        let rest = ids.drop_first();
        assert forall|j: int| 0 <= j < n - 1 implies rest[j] != id by {
            assert(rest[j] == ids[j + 1]);
        }
        lemma_index_of(rest, id, n - 1);
    }
}

proof fn lemma_cursor_place(list: Seq<SelectableV>, set: Set<u32>, n: int)
    requires
        0 <= n < list.len(),
        distinct_panes(list),
        set.contains(list[n].pane_id),
    ensures
        index_of_id(panes_in(list, set), list[n].pane_id) == panes_in(list.take(n), set).len(),
{
    let ids = panes_in(list, set);
    let k = panes_in(list.take(n), set).len() as int;
    lemma_panes_in_at(list, set, n);
    assert forall|j: int| 0 <= j < k implies ids[j] != list[n].pane_id by {
        let m = lemma_panes_in_source(list, set, j);
        if m > n {
            lemma_panes_in_front(list.take(m), set, n);
            assert(list.take(m).take(n) =~= list.take(n));
        }
        assert(m != n);
        if m < n {
            assert(list[m].pane_id != list[n].pane_id);
        } else {
            assert(list[n].pane_id != list[m].pane_id);
        }
    }
    lemma_index_of(ids, list[n].pane_id, k);
}

/// The key moves the cursor of a search down, in this phase.
pub open spec fn search_down(key: Key, phase: SearchPhase) -> bool {
    key.bare == BareKey::Down || (key.bare == BareKey::Tab && !key.shift) || (key.bare
        == BareKey::Char('j') && phase == SearchPhase::Navigating)
}

/// The key moves the cursor of a search up, in this phase.
pub open spec fn search_up(key: Key, phase: SearchPhase) -> bool {
    key.bare == BareKey::Up || (key.bare == BareKey::Tab && key.shift) || (key.bare
        == BareKey::Char('k') && phase == SearchPhase::Navigating)
}

/// The rows strictly between hold no hit.
pub open spec fn no_hit_between(s: StateV, a: int, b: int) -> bool {
    forall|i: int|
        a < i < b ==> !s.nav.search->0.hits.contains_key(
            (#[trigger] s.list.selectable[i]).pane_id,
        )
}

/// Moving down in a search goes to the next hit in the order of the list, and from the last hit
/// nowhere. Query, hits and phase stay, and so does the selection.
#[verifier::rlimit(40)]
pub proof fn law_search_moves_down(s: StateV, key: Key, n: int, m: int)
    requires
        s.nav.search is Some,
        !s.nav.help_overlay,
        plain(key),
        search_down(key, s.nav.search->0.phase),
        0 <= n < m <= s.list.selectable.len(),
        distinct_panes(s.list.selectable),
        s.nav.search->0.cursor == Some(s.list.selectable[n].pane_id),
        s.nav.search->0.hits.contains_key(s.list.selectable[n].pane_id),
        no_hit_between(s, n, m),
        m < s.list.selectable.len() ==> s.nav.search->0.hits.contains_key(
            s.list.selectable[m].pane_id,
        ),
    ensures
        ({
            let t = s.nav_key(key).0;
            &&& t.nav.search is Some
            &&& t.nav.search->0.cursor == Some(
                s.list.selectable[if m < s.list.selectable.len() {
                    m
                } else {
                    n
                }].pane_id,
            )
            &&& t.nav.search->0.query == s.nav.search->0.query
            &&& t.nav.search->0.hits == s.nav.search->0.hits
            &&& t.nav.search->0.phase == s.nav.search->0.phase
            &&& t.nav.search->0.saved == s.nav.search->0.saved
            &&& t.nav.nav_mode == s.nav.nav_mode
            &&& t.list == s.list
        }),
{
    let list = s.list.selectable;
    let set = s.nav.search->0.hits.dom();
    let ids = panes_in(list, set);
    let k = panes_in(list.take(n), set).len() as int;
    lemma_cursor_place(list, set, n);
    lemma_panes_in_at(list, set, n);
    assert(list.take(n + 1).drop_last() =~= list.take(n));
    assert(list.take(n + 1).last() == list[n]);
    assert forall|i: int| n + 1 <= i < m implies !set.contains((#[trigger] list[i]).pane_id) by {}
    lemma_panes_in_same(list, set, n + 1, m);
    if m < list.len() {
        lemma_panes_in_at(list, set, m);
        assert(panes_in(list.take(m), set).len() == k + 1);
    } else {
        assert(list.take(m) =~= list);
        assert(ids.len() == k + 1);
    }
    law_preview_follows_quietly(s.move_search_cursor(true));
}

/// Moving up in a search goes to the hit before in the order of the list, and from the first hit
/// nowhere. Query, hits and phase stay, and so does the selection.
#[verifier::rlimit(40)]
pub proof fn law_search_moves_up(s: StateV, key: Key, n: int, m: int)
    requires
        s.nav.search is Some,
        !s.nav.help_overlay,
        plain(key),
        search_up(key, s.nav.search->0.phase),
        -1 <= m < n < s.list.selectable.len(),
        distinct_panes(s.list.selectable),
        s.nav.search->0.cursor == Some(s.list.selectable[n].pane_id),
        s.nav.search->0.hits.contains_key(s.list.selectable[n].pane_id),
        no_hit_between(s, m, n),
        m >= 0 ==> s.nav.search->0.hits.contains_key(s.list.selectable[m].pane_id),
    ensures
        ({
            let t = s.nav_key(key).0;
            &&& t.nav.search is Some
            &&& t.nav.search->0.cursor == Some(
                s.list.selectable[if m >= 0 {
                    m
                } else {
                    n
                }].pane_id,
            )
            &&& t.nav.search->0.query == s.nav.search->0.query
            &&& t.nav.search->0.hits == s.nav.search->0.hits
            &&& t.nav.search->0.phase == s.nav.search->0.phase
            &&& t.nav.search->0.saved == s.nav.search->0.saved
            &&& t.nav.nav_mode == s.nav.nav_mode
            &&& t.list == s.list
        }),
{
    let list = s.list.selectable;
    let set = s.nav.search->0.hits.dom();
    let ids = panes_in(list, set);
    let k = panes_in(list.take(n), set).len() as int;
    lemma_cursor_place(list, set, n);
    lemma_panes_in_at(list, set, n);
    assert forall|i: int| m + 1 <= i < n implies !set.contains((#[trigger] list[i]).pane_id) by {}
    lemma_panes_in_same(list, set, m + 1, n);
    if m >= 0 {
        lemma_panes_in_at(list, set, m);
        assert(list.take(m + 1).drop_last() =~= list.take(m));
        assert(list.take(m + 1).last() == list[m]);
        assert(panes_in(list.take(m), set).len() == k - 1);
    } else {
        assert(list.take(0) =~= Seq::empty());
        assert(k == 0);
    }
    law_preview_follows_quietly(s.move_search_cursor(false));
}

/// Esc leads from editing to navigating and keeps query, hits and cursor; `i` leads back. Esc
/// while navigating ends the search and selects the pane that was selected before it.
#[verifier::rlimit(40)]
pub proof fn law_search_phases(s: StateV, esc: Key, i: Key)
    requires
        s.nav.search is Some,
        !s.nav.help_overlay,
        plain(esc),
        esc.bare == BareKey::Esc,
        types(i, 'i'),
        s.list.selectable.len() <= usize::MAX,
    ensures
        ({
            let search = s.nav.search->0;
            let t = s.nav_key(esc).0;
            let u = s.nav_key(i).0;
            &&& search.phase == SearchPhase::Editing ==> t.nav.search is Some
                && t.nav.search->0.phase == SearchPhase::Navigating && t.nav.search->0.query
                == search.query && t.nav.search->0.hits == search.hits && t.nav.search->0.cursor
                == search.cursor && t.nav.search->0.saved == search.saved && t.list == s.list
            &&& search.phase == SearchPhase::Navigating ==> u.nav.search is Some
                && u.nav.search->0.phase == SearchPhase::Editing && u.nav.search->0.query
                == search.query && u.nav.search->0.hits == search.hits && u.nav.search->0.cursor
                == search.cursor && u.nav.search->0.saved == search.saved && u.list == s.list
            &&& search.phase == SearchPhase::Navigating ==> t.nav.search is None
                && t.nav.nav_mode == s.nav.nav_mode && (search.saved is Some && lists(
                s,
                search.saved->0,
            ) ==> selects(t, search.saved->0))
        }),
{
    law_preview_follows_quietly(s.with_phase(SearchPhase::Navigating));
    law_preview_follows_quietly(s.with_phase(SearchPhase::Editing));
    law_preview_follows_quietly(s.exit_search());
    if s.nav.search->0.saved is Some {
        let saved = s.nav.search->0.saved->0;
        lemma_place_of(s.list.selectable, saved);
        if lists(s, saved) {
            let k = choose|k: int|
                0 <= k < s.list.selectable.len() && (#[trigger] s.list.selectable[k]).pane_id
                    == saved;
            assert(s.list.selectable[k].pane_id == saved);
            assert(has_pane(s.list.selectable, saved));
        }
    }
}

/// The two keys with a modifier that work in a search: Alt+m flips the mark of the pane under
/// the cursor, and of no other, and Alt+p opens and closes the preview. Neither leaves it.
#[verifier::rlimit(40)]
pub proof fn law_search_alt_keys(s: StateV, key: Key, pane_id: u32)
    requires
        s.nav.search is Some,
        !s.nav.help_overlay,
        s.nav.triage is None,
        key.alt,
        key.bare == BareKey::Char('m') || key.bare == BareKey::Char('p'),
    ensures
        ({
            let t = s.nav_key(key).0;
            &&& t.nav.search == s.nav.search
            &&& t.nav.nav_mode == s.nav.nav_mode
            &&& t.list.selected == s.list.selected
            &&& key.bare == BareKey::Char('m') && s.nav.search->0.cursor is Some ==> (
            t.list.marked.contains(pane_id) <==> (s.list.marked.contains(pane_id) != (Some(pane_id)
                == s.nav.search->0.cursor)))
            &&& key.bare == BareKey::Char('p') ==> t.list.marked == s.list.marked && (
            t.nav.preview is Some <==> s.nav.preview is None)
        }),
{
    law_preview_follows_quietly(
        s.with_preview(Some(PreviewState { pane: None, opening: false, target: None })),
    );
}

// --- the triage list ---

/// The key moves the cursor of the triage list down.
pub open spec fn triage_down(key: Key) -> bool {
    key.bare == BareKey::Down || (key.bare == BareKey::Tab && !key.shift) || key.bare
        == BareKey::Char('j')
}

/// The key moves the cursor of the triage list up.
pub open spec fn triage_up(key: Key) -> bool {
    key.bare == BareKey::Up || (key.bare == BareKey::Tab && key.shift) || key.bare
        == BareKey::Char('k')
}

/// The cursor of the triage list is on entry `n`: it was put there, or it is nowhere and the
/// entry is the first.
pub open spec fn triage_at(s: StateV, n: int) -> bool {
    &&& s.nav.triage is Some
    &&& 0 <= n < s.triage_list().len()
    &&& s.nav.triage->0.cursor == Some(s.triage_list()[n].pane_id) || (n == 0
        && s.nav.triage->0.cursor is None)
}

/// No key of these is in the way of the triage list.
pub open spec fn in_triage(s: StateV) -> bool {
    s.nav.triage is Some && !s.nav.help_overlay && s.nav.search is None
}

proof fn lemma_triage_at(s: StateV, n: int)
    requires
        triage_at(s, n),
        distinct_panes(s.triage_list()),
    ensures
        s.triage_pane() == Some(s.triage_list()[n].pane_id),
        place_of(s.triage_list(), s.triage_list()[n].pane_id) == n,
{
    let list = s.triage_list();
    assert(has_pane(list, list[n].pane_id));
    assert forall|j: int| 0 <= j < n implies (#[trigger] list[j]).pane_id != list[n].pane_id by {}
    lemma_place_of_is(list, list[n].pane_id, n);
}

/// The cursor of the triage list moves by one entry, or to the ends with `g` and `G`, and stays
/// inside the list. Where to return to, the selection and what is urgent stay.
#[verifier::rlimit(40)]
pub proof fn law_triage_moves(s: StateV, key: Key, n: int)
    requires
        in_triage(s),
        plain(key),
        triage_at(s, n),
        distinct_panes(s.triage_list()),
        triage_down(key) || triage_up(key) || key.bare == BareKey::Char('g') || key.bare
            == BareKey::Char('G'),
    ensures
        ({
            let t = s.nav_key(key).0;
            let last = s.triage_list().len() - 1;
            &&& triage_down(key) && n < last ==> triage_at(t, n + 1)
            &&& triage_down(key) && n == last ==> triage_at(t, n)
            &&& triage_up(key) && n > 0 ==> triage_at(t, n - 1)
            &&& triage_up(key) && n == 0 ==> triage_at(t, 0)
            &&& key.bare == BareKey::Char('g') ==> triage_at(t, 0)
            &&& key.bare == BareKey::Char('G') ==> triage_at(t, last)
            &&& t.triage_list() == s.triage_list()
            &&& t.nav.triage->0.saved == s.nav.triage->0.saved
            &&& t.list == s.list
            &&& t.nav.nav_mode == s.nav.nav_mode
        }),
{
    lemma_triage_at(s, n);
    law_preview_follows_quietly(s.triage_command(key));
}

/// Enter in the triage list jumps to the pane under the cursor: it is selected, nav mode is left,
/// and the last thing asked of the host is to focus it.
#[verifier::rlimit(40)]
pub proof fn law_triage_enter_jumps(s: StateV, key: Key, n: int, m: int)
    requires
        in_triage(s),
        plain(key),
        key.bare == BareKey::Enter,
        triage_at(s, n),
        distinct_panes(s.triage_list()),
        distinct_panes(s.list.selectable),
        0 <= m < s.list.selectable.len() <= usize::MAX,
        s.list.selectable[m].pane_id == s.triage_list()[n].pane_id,
    ensures
        ({
            let t = s.nav_key(key).0;
            let e = s.list.selectable[m];
            &&& t.list.selected == m
            &&& !t.nav.nav_mode
            &&& t.nav.triage is None
            &&& t.calls.len() > 0
            &&& t.calls.last() == HostCallV::FocusPane(e.pane_id, e.is_floating)
            &&& t.status == s.status
        }),
{
    lemma_triage_at(s, n);
    lemma_place_of_is(s.list.selectable, s.list.selectable[m].pane_id, m);
    let out = s.with_selected(m as usize).exit_nav_mode();
    assert(out.list == s.with_selected(m as usize).list);
    let t = s.jump_to(m as usize);
    assert(t.nav.preview is None);
}

/// Esc leads from the triage list back to the tree, in nav mode, with the pane selected that was
/// selected before.
#[verifier::rlimit(40)]
pub proof fn law_triage_esc_returns(s: StateV, key: Key)
    requires
        in_triage(s),
        plain(key),
        key.bare == BareKey::Esc,
        s.list.selectable.len() <= usize::MAX,
        s.nav.triage->0.saved is Some,
        lists(s, s.nav.triage->0.saved->0),
    ensures
        ({
            let t = s.nav_key(key).0;
            &&& t.nav.triage is None
            &&& t.nav.nav_mode == s.nav.nav_mode
            &&& selects(t, s.nav.triage->0.saved->0)
            &&& focuses_nothing(t.calls, s.calls.len() as int)
        }),
{
    let saved = s.nav.triage->0.saved->0;
    lemma_place_of(s.list.selectable, saved);
    let k = choose|k: int|
        0 <= k < s.list.selectable.len() && (#[trigger] s.list.selectable[k]).pane_id == saved;
    assert(s.list.selectable[k].pane_id == saved);
    assert(has_pane(s.list.selectable, saved));
    law_preview_follows_quietly(s.exit_triage());
}

/// In the triage list `m` flips the mark of the pane under the cursor and of no other, and `M`
/// takes all marks off; the selection is not meant.
#[verifier::rlimit(40)]
pub proof fn law_triage_marks(s: StateV, key: Key, n: int, pane_id: u32)
    requires
        in_triage(s),
        plain(key),
        triage_at(s, n),
        distinct_panes(s.triage_list()),
        key.bare == BareKey::Char('m') || key.bare == BareKey::Char('M'),
    ensures
        ({
            let t = s.nav_key(key).0;
            &&& key.bare == BareKey::Char('m') ==> (t.list.marked.contains(pane_id) <==> (
            s.list.marked.contains(pane_id) != (pane_id == s.triage_list()[n].pane_id)))
            &&& key.bare == BareKey::Char('M') ==> !t.list.marked.contains(pane_id)
            &&& t.nav.triage == s.nav.triage
            &&& t.nav.nav_mode == s.nav.nav_mode
            &&& t.list.selected == s.list.selected
        }),
{
    lemma_triage_at(s, n);
    law_preview_follows_quietly(s.triage_command(key));
    if key.bare == BareKey::Char('M') && s.list.marked.is_empty() {
        assert(s.list.marked =~= Set::empty());
    }
}

/// Any other character leaves nav mode from the triage list.
#[verifier::rlimit(40)]
pub proof fn law_triage_other_keys_leave(s: StateV, key: Key, c: char)
    requires
        in_triage(s),
        types(key, c),
        c != 'j' && c != 'k' && c != 'g' && c != 'G' && c != 'm' && c != 'M' && c != 'p' && c
            != 'r' && c != '?',
    ensures
        !s.nav_key(key).0.nav.nav_mode,
        s.nav_key(key).0.status == s.status,
        s.nav_key(key).0.list.marked == s.list.marked,
{
    lemma_leaving(s);
}

// --- the numbers ---

/// Nothing else is in the way of the numbers.
pub open spec fn in_jump(s: StateV) -> bool {
    s.nav.jump is Some && !s.nav.help_overlay && s.nav.search is None && s.nav.triage is None
}

/// The number of row `i` begins with what was typed and this digit.
pub open spec fn in_running(s: StateV, i: int, digit: char) -> bool {
    begins_with(
        row_number(s.list.selectable.len(), i as nat),
        s.nav.jump->0.buffer.push(digit),
    )
}

proof fn lemma_first_row(count: nat, from: nat, buffer: Seq<char>)
    requires
        from <= count,
    ensures
        from <= first_row(count, from, buffer) <= count,
        first_row(count, from, buffer) < count ==> begins_with(
            row_number(count, first_row(count, from, buffer)),
            buffer,
        ),
        forall|i: nat|
            from <= i < first_row(count, from, buffer) ==> !begins_with(
                #[trigger] row_number(count, i),
                buffer,
            ),
    decreases count - from,
{
    if from < count && !begins_with(row_number(count, from), buffer) {
        lemma_first_row(count, from + 1, buffer);
    }
}

/// A digit that leaves one row in the running jumps to it: the row is selected, nav mode is left,
/// and the last thing asked of the host is to focus its pane.
#[verifier::rlimit(40)]
pub proof fn law_last_number_jumps(s: StateV, key: Key, digit: char, n: int)
    requires
        in_jump(s),
        types(key, digit),
        '0' <= digit <= '9',
        0 <= n < s.list.selectable.len() <= usize::MAX,
        forall|i: int|
            0 <= i < s.list.selectable.len() ==> (#[trigger] in_running(s, i, digit) <==> i == n),
    ensures
        ({
            let t = s.nav_key(key).0;
            let e = s.list.selectable[n];
            &&& t.list.selected == n
            &&& !t.nav.nav_mode
            &&& t.nav.jump is None
            &&& t.calls.len() > 0
            &&& t.calls.last() == HostCallV::FocusPane(e.pane_id, e.is_floating)
        }),
{
    let count = s.list.selectable.len();
    let buffer = s.nav.jump->0.buffer.push(digit);
    let first = first_row(count, 0, buffer);
    lemma_first_row(count, 0, buffer);
    assert(in_running(s, n, digit));
    assert(first == n) by {
        if first < n {
            assert(in_running(s, first as int, digit));
        }
        if first > n {
            assert(!begins_with(row_number(count, n as nat), buffer));
        }
    }
    lemma_first_row(count, first + 1, buffer);
    let second = first_row(count, first + 1, buffer);
    assert(second == count) by {
        if second < count {
            assert(in_running(s, second as int, digit));
        }
    }
    let kept = s.with_jump(Some(JumpStateV { buffer }));
    let out = kept.with_selected(n as usize).exit_nav_mode();
    assert(out.list == kept.with_selected(n as usize).list);
}

/// A digit that leaves several rows in the running is kept, and one that leaves none clears what
/// was typed. Either way the numbers stay open and nothing is selected or focused.
pub proof fn law_other_digits_wait(s: StateV, key: Key, digit: char, n: int, m: int)
    requires
        in_jump(s),
        types(key, digit),
        '0' <= digit <= '9',
    ensures
        ({
            let t = s.nav_key(key).0;
            let some = 0 <= n < m < s.list.selectable.len() && in_running(s, n, digit)
                && in_running(s, m, digit);
            let none = forall|i: int|
                0 <= i < s.list.selectable.len() ==> !#[trigger] in_running(s, i, digit);
            &&& some ==> t.nav.jump is Some && t.nav.jump->0.buffer == s.nav.jump->0.buffer.push(
                digit,
            )
            &&& none ==> t.nav.jump is Some && t.nav.jump->0.buffer.len() == 0
            &&& some || none ==> t.list == s.list && t.nav.nav_mode == s.nav.nav_mode && t.calls
                == s.calls
        }),
{
    let count = s.list.selectable.len();
    let buffer = s.nav.jump->0.buffer.push(digit);
    let first = first_row(count, 0, buffer);
    lemma_first_row(count, 0, buffer);
    if 0 <= n < m < count && in_running(s, n, digit) && in_running(s, m, digit) {
        assert(first <= n) by {
            if first > n {
                assert(!begins_with(row_number(count, n as nat), buffer));
            }
        }
        lemma_first_row(count, first + 1, buffer);
        let second = first_row(count, first + 1, buffer);
        assert(second < count) by {
            if second == count {
                assert(!begins_with(row_number(count, m as nat), buffer));
            }
        }
    }
    if first < count {
        assert(in_running(s, first as int, digit));
    }
}

/// Esc closes the numbers and stays in nav mode, Backspace takes the last digit back, and any
/// other key but a digit leaves nav mode.
#[verifier::rlimit(40)]
pub proof fn law_jump_keys(s: StateV, key: Key)
    requires
        in_jump(s),
        plain(key),
    ensures
        ({
            let t = s.nav_key(key).0;
            let buffer = s.nav.jump->0.buffer;
            &&& key.bare == BareKey::Esc ==> t.nav.jump is None && t.nav.nav_mode == s.nav.nav_mode
                && t.list == s.list
            &&& key.bare == BareKey::Backspace ==> t.nav.jump is Some && t.nav.nav_mode
                == s.nav.nav_mode && t.list == s.list && t.nav.jump->0.buffer == (if buffer.len()
                > 0 {
                buffer.drop_last()
            } else {
                buffer
            })
            &&& key.bare == BareKey::Enter || key.bare == BareKey::Down || key.bare == BareKey::Up
                || key.bare == BareKey::Tab ==> !t.nav.nav_mode
            &&& (key.bare matches BareKey::Char(c) && c != '?' && (c < '0' || c > '9'))
                ==> !t.nav.nav_mode
        }),
{
    lemma_leaving(s);
}

// --- the prompt before panes end ---

/// Nothing else is in the way of the prompt.
pub open spec fn in_prompt(s: StateV) -> bool {
    s.nav.termination is Some && !s.nav.help_overlay && s.nav.search is None && s.nav.triage is None
        && s.nav.jump is None
}

proof fn lemma_panes_in_has(list: Seq<SelectableV>, set: Set<u32>, id: u32)
    ensures
        panes_in(list, set).contains(id) <==> set.contains(id) && exists|i: int|
            0 <= i < list.len() && (#[trigger] list[i]).pane_id == id,
{
    let ids = panes_in(list, set);
    if ids.contains(id) {
        let k = choose|k: int| 0 <= k < ids.len() && ids[k] == id;
        let n = lemma_panes_in_source(list, set, k);
        assert(list[n].pane_id == id);
    }
    if set.contains(id) && exists|i: int| 0 <= i < list.len() && (#[trigger] list[i]).pane_id == id {
        let n = choose|i: int| 0 <= i < list.len() && (#[trigger] list[i]).pane_id == id;
        lemma_panes_in_at(list, set, n);
        assert(ids.contains(id));
    }
}

proof fn lemma_endings(kind: Termination, ids: Seq<u32>, id: u32)
    ensures
        endings(kind, ids).contains(HostCallV::SendSigkill(PaneId::Terminal(id))) <==> kind
            != Termination::Close && ids.contains(id),
        endings(kind, ids).contains(HostCallV::ClosePane(PaneId::Terminal(id))) <==> kind
            != Termination::Kill && ids.contains(id),
    decreases ids.len(),
{
    if ids.len() > 0 {
        let front = ids.drop_last();
        let last = ids.last();
        lemma_endings(kind, front, id);
        let a = endings(kind, front);
        let b = ending(kind, last);
        let all = endings(kind, ids);
        assert(all == a + b);
        assert(b =~= match kind {
            Termination::Close => seq![HostCallV::ClosePane(PaneId::Terminal(last))],
            Termination::Kill => seq![HostCallV::SendSigkill(PaneId::Terminal(last))],
            Termination::KillThenClose => seq![
                HostCallV::SendSigkill(PaneId::Terminal(last)),
                HostCallV::ClosePane(PaneId::Terminal(last)),
            ],
        });
        assert(ids =~= front.push(last));
        assert(ids.contains(id) <==> front.contains(id) || id == last) by {
            if front.contains(id) {
                let j = choose|j: int| 0 <= j < front.len() && front[j] == id;
                assert(ids[j] == id);
            }
            assert(ids[ids.len() - 1] == last);
        }
        let kill = HostCallV::SendSigkill(PaneId::Terminal(id));
        let close = HostCallV::ClosePane(PaneId::Terminal(id));
        lemma_contains_add(a, b, kill);
        lemma_contains_add(a, b, close);
        if id == last && kind != Termination::Close {
            assert(b[0] == kill);
        }
        if id == last && kind != Termination::Kill {
            assert(b[b.len() - 1] == close);
        }
    }
}

proof fn lemma_contains_add(a: Seq<HostCallV>, b: Seq<HostCallV>, c: HostCallV)
    ensures
        (a + b).contains(c) <==> a.contains(c) || b.contains(c),
{
    if a.contains(c) {
        let j = choose|j: int| 0 <= j < a.len() && a[j] == c;
        assert((a + b)[j] == c);
    }
    if b.contains(c) {
        let j = choose|j: int| 0 <= j < b.len() && b[j] == c;
        assert((a + b)[a.len() + j] == c);
    }
}

proof fn lemma_endings_in_pairs(ids: Seq<u32>)
    ensures
        endings(Termination::KillThenClose, ids).len() == 2 * ids.len(),
        forall|i: int|
            #![trigger ids[i]]
            0 <= i < ids.len() ==> endings(Termination::KillThenClose, ids)[2 * i]
                == HostCallV::SendSigkill(PaneId::Terminal(ids[i])) && endings(
                Termination::KillThenClose,
                ids,
            )[2 * i + 1] == HostCallV::ClosePane(PaneId::Terminal(ids[i])),
    decreases ids.len(),
{
    if ids.len() > 0 {
        let kind = Termination::KillThenClose;
        let front = ids.drop_last();
        let last = ids.last();
        lemma_endings_in_pairs(front);
        let a = endings(kind, front);
        let all = endings(kind, ids);
        assert(all == a + ending(kind, last));
        assert(ending(kind, last) =~= seq![
            HostCallV::SendSigkill(PaneId::Terminal(last)),
            HostCallV::ClosePane(PaneId::Terminal(last)),
        ]);
        assert forall|i: int|
            #![trigger ids[i]]
            0 <= i < ids.len() implies all[2 * i] == HostCallV::SendSigkill(
            PaneId::Terminal(ids[i]),
        ) && all[2 * i + 1] == HostCallV::ClosePane(PaneId::Terminal(ids[i])) by {
            if i < front.len() {
                assert(front[i] == ids[i]);
                assert(all[2 * i] == a[2 * i] && all[2 * i + 1] == a[2 * i + 1]);
            }
        }
    }
}

/// The prompt: `c` closes, `k` kills, `x` does both, each for exactly the targets that are still
/// listed. The prompt closes, the marks go, and nav mode goes on.
#[verifier::rlimit(40)]
pub proof fn law_prompt_ends_the_targets(s: StateV, key: Key, id: u32)
    requires
        in_prompt(s),
        types(key, 'c') || types(key, 'k') || types(key, 'x'),
    ensures
        ({
            let t = s.nav_key(key).0;
            let new = t.calls.skip(s.calls.len() as int);
            let meant = s.nav.termination->0.targets.contains(id) && lists(s, id);
            &&& t.calls.take(s.calls.len() as int) == s.calls
            &&& new.contains(HostCallV::SendSigkill(PaneId::Terminal(id))) <==> meant && !types(
                key,
                'c',
            )
            &&& new.contains(HostCallV::ClosePane(PaneId::Terminal(id))) <==> meant && !types(
                key,
                'k',
            )
            &&& t.nav.termination is None
            &&& t.nav.nav_mode == s.nav.nav_mode
            &&& t.list.marked.is_empty()
            &&& t.list.selectable == s.list.selectable
            &&& t.list.selected == s.list.selected
        }),
{
    let kind = Termination::of_key(key.bare)->0;
    let targets = s.nav.termination->0.targets;
    let ids = s.termination_panes();
    lemma_endings(kind, ids, id);
    lemma_panes_in_has(s.list.selectable, targets.to_set(), id);
    assert(ids.contains(id) <==> targets.contains(id) && lists(s, id));
    let cleared = s.with_termination(None).clear_marks();
    lemma_broadcasts(
        s.with_termination(None).with_marks(Set::empty()),
        MARK_PIPE@,
        s.with_termination(None).with_marks(Set::empty()).mark_text(),
    );
    let t = s.nav_key(key).0;
    let new = t.calls.skip(s.calls.len() as int);
    let tail = endings(kind, ids);
    let gap = cleared.calls.len() - s.calls.len();
    assert(t.calls == cleared.calls + tail);
    assert(t.calls.take(s.calls.len() as int) =~= s.calls);
    assert forall|j: int| 0 <= j < new.len() implies (#[trigger] new[j]) == (if j < gap {
        cleared.calls[s.calls.len() + j]
    } else {
        tail[j - gap]
    }) by {}
    let kill = HostCallV::SendSigkill(PaneId::Terminal(id));
    let close = HostCallV::ClosePane(PaneId::Terminal(id));
    assert(new.contains(kill) <==> tail.contains(kill)) by {
        if tail.contains(kill) {
            let j = choose|j: int| 0 <= j < tail.len() && tail[j] == kill;
            assert(new[gap + j] == kill);
        }
        if new.contains(kill) {
            let j = choose|j: int| 0 <= j < new.len() && new[j] == kill;
            assert(j >= gap);
            assert(tail[j - gap] == kill);
        }
    }
    assert(new.contains(close) <==> tail.contains(close)) by {
        if tail.contains(close) {
            let j = choose|j: int| 0 <= j < tail.len() && tail[j] == close;
            assert(new[gap + j] == close);
        }
        if new.contains(close) {
            let j = choose|j: int| 0 <= j < new.len() && new[j] == close;
            assert(j >= gap);
            assert(tail[j - gap] == close);
        }
    }
}

/// With `x` each pane is killed right before it is closed, one pane after another, in the order
/// of the list.
#[verifier::rlimit(40)]
pub proof fn law_kill_goes_before_close(s: StateV, key: Key, i: int)
    requires
        in_prompt(s),
        types(key, 'x'),
        0 <= i < s.termination_panes().len(),
    ensures
        ({
            let t = s.nav_key(key).0;
            let ids = s.termination_panes();
            let from = t.calls.len() - 2 * ids.len();
            &&& from >= s.calls.len()
            &&& t.calls[from + 2 * i] == HostCallV::SendSigkill(PaneId::Terminal(ids[i]))
            &&& t.calls[from + 2 * i + 1] == HostCallV::ClosePane(PaneId::Terminal(ids[i]))
        }),
{
    let ids = s.termination_panes();
    lemma_endings_in_pairs(ids);
    let tail = endings(Termination::KillThenClose, ids);
    assert(ids[i] == ids[i]);
    let cleared = s.with_termination(None).clear_marks();
    assert(s.nav_key(key).0.calls == cleared.calls + tail);
}

/// What the prompt is about: the marked panes of the list, in its order, or the selected pane
/// where nothing listed is marked.
#[verifier::rlimit(40)]
pub proof fn law_prompt_targets(s: StateV, key: Key, id: u32)
    requires
        in_tree(s),
        types(key, 'd'),
        s.list.selected < s.list.selectable.len(),
    ensures
        ({
            let t = s.nav_key(key).0;
            let any = exists|x: u32| #[trigger] s.list.marked.contains(x) && lists(s, x);
            &&& t.nav.termination is Some
            &&& any ==> (t.nav.termination->0.targets.contains(id) <==> s.list.marked.contains(id)
                && lists(s, id)) && t.nav.termination->0.from_marks
            &&& !any ==> t.nav.termination->0.targets == seq![
                s.list.selectable[s.list.selected as int].pane_id,
            ] && !t.nav.termination->0.from_marks
            &&& ends_nothing(t.calls, s.calls.len() as int)
        }),
{
    let ids = s.marked_in_tree_order();
    assert forall|x: u32| ids.contains(x) <==> s.list.marked.contains(x) && lists(s, x) by {
        lemma_panes_in_has(s.list.selectable, s.list.marked, x);
    }
    if ids.len() > 0 {
        assert(ids.contains(ids[0]));
        assert(s.list.marked.contains(ids[0]) && lists(s, ids[0]));
    }
    if exists|x: u32| #[trigger] s.list.marked.contains(x) && lists(s, x) {
        let x = choose|x: u32| #[trigger] s.list.marked.contains(x) && lists(s, x);
        assert(ids.contains(x));
        assert(ids.len() > 0);
    }
    let opened = s.enter_termination();
    lemma_tells_selection(opened);
    let told = opened.broadcasts_selection();
    law_preview_follows_quietly(told);
    lemma_preview_ends_nothing(told);
}

proof fn lemma_preview_ends_nothing(s: StateV)
    ensures
        ends_nothing(s.refresh_preview().calls, s.calls.len() as int),
{
}

/// Esc backs out of the prompt: nothing ends, the marks stay, and nav mode goes on. Any key but
/// the three leaves nav mode and ends nothing.
#[verifier::rlimit(40)]
pub proof fn law_prompt_backs_out(s: StateV, key: Key)
    requires
        in_prompt(s),
        !types(key, 'c'),
        !types(key, 'k'),
        !types(key, 'x'),
        !types(key, '?'),
    ensures
        ({
            let t = s.nav_key(key).0;
            &&& t.nav.termination is None
            &&& t.list.marked == s.list.marked
            &&& ends_nothing(t.calls, s.calls.len() as int)
            &&& t.nav.nav_mode <==> s.nav.nav_mode && plain(key) && key.bare == BareKey::Esc
        }),
{
    lemma_leaving(s);
}

// --- a cursor that was lost ---

/// A cursor of the triage list whose pane left the list counts as one on the first entry: a jump
/// goes there.
pub proof fn law_lost_cursor_is_first(s: StateV)
    requires
        s.nav.triage is Some,
        s.triage_list().len() > 0,
        s.nav.triage->0.cursor is None || forall|i: int|
            0 <= i < s.triage_list().len() ==> (#[trigger] s.triage_list()[i]).pane_id
                != s.nav.triage->0.cursor->0,
    ensures
        s.triage_pane() == Some(s.triage_list()[0].pane_id),
        s.highlighted() == Some(s.triage_list()[0].pane_id),
{
}

/// The pane that is meant by a mark, the preview and a read is that of the row that is lit: in the
/// triage list, in a search, or in the tree.
pub proof fn law_what_is_meant(s: StateV, n: int)
    ensures
        s.nav.triage is Some && triage_at(s, n) && distinct_panes(s.triage_list())
            ==> s.highlighted() == Some(s.triage_list()[n].pane_id),
        s.nav.triage is None && s.nav.search is Some ==> s.highlighted()
            == s.nav.search->0.cursor,
        s.nav.triage is None && s.nav.search is None && s.list.selected < s.list.selectable.len()
            ==> s.highlighted() == Some(s.list.selectable[s.list.selected as int].pane_id),
        s.nav.triage is None && s.nav.search is None && s.list.selected
            >= s.list.selectable.len() ==> s.highlighted() is None,
{
    if s.nav.triage is Some && triage_at(s, n) && distinct_panes(s.triage_list()) {
        lemma_triage_at(s, n);
    }
}

} // verus!
