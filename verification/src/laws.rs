//! What holds across the modes: where a key leads, what leaving a mode undoes, and what stays
//! as it was.

use vstd::prelude::*;

use crate::host::{BareKey, HostCallV, Key, PaneId, TabInfoV};
use crate::jump::{first_row, law_numbers_prefix_free, row_number, JumpStateV};
use crate::line::capped;
use crate::rows::{count_in, frame_bottom, frame_top, sorted_tabs, RowV};
use crate::screen::{resized, window};
use crate::scroll::{law_scroll_in_list, scrolled, shown_rows};
use crate::search::{first_in, SearchPhase};
use crate::state::{FocusV, SelectableV, StateV};
use crate::text::begins_with;
use crate::triage::{has_pane, lemma_place_of, lemma_place_of_is};

verus! {

/// No pane is in the list twice.
pub open spec fn distinct_panes(list: Seq<SelectableV>) -> bool {
    forall|i: int, j: int|
        0 <= i < j < list.len() ==> (#[trigger] list[i]).pane_id != (#[trigger] list[j]).pane_id
}

/// The key has a meaning in the tree.
pub open spec fn tree_key(bare: BareKey) -> bool {
    match bare {
        BareKey::Down | BareKey::Tab | BareKey::Up | BareKey::Enter => true,
        BareKey::Char(c) => c == '/' || c == 't' || c == 'n' || c == 'd' || c == 'm' || c == 'M'
            || c == 'p' || c == 'r' || c == 'j' || c == 'k' || c == 'g' || c == 'G' || c == ' '
            || c == 'l' || c == '?',
        _ => false,
    }
}

/// No mode is open inside nav mode.
pub open spec fn in_tree(s: StateV) -> bool {
    !s.nav.help_overlay && s.nav.search is None && s.nav.triage is None && s.nav.jump is None
        && s.nav.termination is None
}

// --- leaving nav mode ---

/// Leaving nav mode closes everything inside it and gives the keys and the focus back. What
/// is listed, marked and selected stays, and so do the states of the agents.
pub proof fn law_exit_closes_everything(s: StateV)
    ensures
        ({
            let t = s.exit_nav_mode();
            &&& !t.nav.nav_mode
            &&& in_tree(t)
            &&& t.nav.preview is None
            &&& t.focus.focus_parked is None
            &&& t.calls.contains(HostCallV::ClearKeyPressesIntercepts)
            &&& t.list == s.list
            &&& t.status == s.status
        }),
{
    let closed = s.nav_closed().close_preview().release_parked_focus(true);
    let t = closed.asks(HostCallV::ClearKeyPressesIntercepts);
    assert(t.calls[closed.calls.len() as int] == HostCallV::ClearKeyPressesIntercepts);
    assert(s.exit_nav_mode().calls[closed.calls.len() as int]
        == HostCallV::ClearKeyPressesIntercepts);
}

/// A key without a meaning in the tree leaves nav mode, and so does any key with a modifier.
pub proof fn law_unknown_key_exits(s: StateV, key: Key)
    requires
        in_tree(s),
        key.hard() || !tree_key(key.bare),
    ensures
        !s.nav_key(key).0.nav.nav_mode,
{
    law_exit_closes_everything(s);
    let left = s.leave_nav_mode();
    assert(!left.nav.nav_mode && left.nav.preview is None);
}

/// The help takes whatever key comes to close itself, and nothing else happens.
pub proof fn law_help_takes_the_key(s: StateV, key: Key)
    requires
        s.nav.help_overlay,
    ensures
        s.nav_key(key) == (s.with_help(false), true),
{
}

/// A jump leaves nav mode, and the last thing asked of the host is to focus the pane.
pub proof fn law_jump_focuses(s: StateV, index: usize)
    requires
        index < s.list.selectable.len(),
    ensures
        !s.jump_to(index).nav.nav_mode,
        s.jump_to(index).calls.last() == HostCallV::FocusPane(
            s.list.selectable[index as int].pane_id,
            s.list.selectable[index as int].is_floating,
        ),
{
    law_exit_closes_everything(s.with_selected(index));
}

/// Who leaves nav mode and comes back without having moved the focus browses on where they
/// were.
pub proof fn law_browsing_resumes(s: StateV)
    requires
        s.focus.focused_pane is Some,
        s.list.selected < s.list.selectable.len() <= usize::MAX,
        distinct_panes(s.list.selectable),
    ensures
        s.leave_nav_mode().enter_nav_mode().list.selected == s.list.selected,
{
    law_exit_closes_everything(s);
    let left = s.leave_nav_mode();
    assert(left.list.selectable == s.list.selectable);
    assert(left.focus.focused_pane == s.focus.focused_pane);
    assert(left.focus.selection_at_nav_exit == s.selected_pane());
    lemma_place_of_is(
        s.list.selectable,
        s.list.selectable[s.list.selected as int].pane_id,
        s.list.selected as int,
    );
}

/// Moving down and up again returns to the same row, and the ends of the list hold: beyond
/// the last row there is no next one, and before the first none.
pub proof fn law_steps_undo(s: StateV)
    requires
        s.list.selectable.len() <= usize::MAX,
    ensures
        s.list.selected + 1 < s.list.selectable.len() ==> s.select_next().select_previous() == s,
        0 < s.list.selected < s.list.selectable.len() ==> s.select_previous().select_next() == s,
        s.select_last().select_next() == s.select_last(),
        s.select_first().select_previous() == s.select_first(),
{
}

// --- the focus ---

/// Leaving nav mode hands the focus back to the pane it came from, if that is still there.
pub proof fn law_focus_is_handed_back(s: StateV)
    requires
        s.focus.focus_parked is Some,
        has_pane(s.list.selectable, s.focus.focus_parked->0.pane_id),
    ensures
        s.exit_nav_mode().calls.contains(
            HostCallV::FocusPane(
                s.focus.focus_parked->0.pane_id,
                s.focus.focus_parked->0.is_floating,
            ),
        ),
{
    let closed = s.nav_closed().close_preview();
    let call = HostCallV::FocusPane(
        s.focus.focus_parked->0.pane_id,
        s.focus.focus_parked->0.is_floating,
    );
    assert(closed.release_parked_focus(true).calls[closed.calls.len() as int] == call);
    assert(s.exit_nav_mode().calls[closed.calls.len() as int] == call);
}

/// Who moves the focus during nav mode leaves it, and the focus stays where it was put: none
/// of what is asked of the host focuses a pane.
pub proof fn law_moved_focus_stays(s: StateV, tab: usize, id: u32)
    requires
        s.nav.nav_mode,
        s.owns_tab(tab),
        s.focus.focus_parked is Some,
        s.focus.focus_parked->0.confirmed,
    ensures
        ({
            let t = s.refresh_focus(Some((tab, PaneId::Terminal(id))));
            &&& !t.nav.nav_mode
            &&& t.focus.focused_pane == Some(id)
            &&& s.calls.len() <= t.calls.len()
            &&& t.calls.take(s.calls.len() as int) == s.calls
            &&& forall|i: int|
                s.calls.len() <= i < t.calls.len() ==> !(#[trigger] t.calls[i] is FocusPane)
        }),
{
    let t = s.refresh_focus(Some((tab, PaneId::Terminal(id))));
    let seen = s.observes_focus(PaneId::Terminal(id));
    let held = seen.release_parked_focus(false);
    let there = held.with_focus(
        FocusV { pending_focus_resync: false, focused_pane: Some(id), ..held.focus },
    );
    assert(t == there.leave_nav_mode());
    let left = there.exit_nav_mode();
    law_exit_closes_everything(there);
    assert(left.calls.take(s.calls.len() as int) =~= s.calls);
    assert(forall|i: int|
        s.calls.len() <= i < left.calls.len() ==> !(#[trigger] left.calls[i] is FocusPane));
    let moved = left.select(id);
    lemma_broadcast_messages(moved);
    assert(t.calls.take(s.calls.len() as int) =~= s.calls);
}

/// Telling the siblings of the selection asks for nothing but messages.
proof fn lemma_broadcast_messages(s: StateV)
    ensures
        s.calls.len() <= s.broadcasts_selection().calls.len(),
        s.broadcasts_selection().calls.take(s.calls.len() as int) == s.calls,
        forall|i: int|
            s.calls.len() <= i < s.broadcasts_selection().calls.len()
                ==> #[trigger] s.broadcasts_selection().calls[i] is PipeMessageToPlugin,
{
    assert(s.broadcasts_selection().calls.take(s.calls.len() as int) =~= s.calls);
}

/// Outside nav mode the selection follows the focus.
pub proof fn law_selection_follows_focus(s: StateV, tab: usize, id: u32)
    requires
        s.owns_tab(tab),
        !s.nav.nav_mode,
        s.focus.focus_parked is None,
        s.focus.focused_pane != Some(id) || s.focus.pending_focus_resync,
        s.list.selectable.len() <= usize::MAX,
        has_pane(s.list.selectable, id),
    ensures
        s.refresh_focus(Some((tab, PaneId::Terminal(id)))).selected_pane() == Some(id),
        s.refresh_focus(Some((tab, PaneId::Terminal(id)))).focus.focused_pane == Some(id),
{
    lemma_place_of(s.list.selectable, id);
}

/// In nav mode the selection belongs to the user: as long as the sidebar holds the focus,
/// looking at the focus moves nothing.
pub proof fn law_browsing_is_not_disturbed(s: StateV, tab: usize)
    requires
        s.nav.nav_mode,
        s.owns_tab(tab),
        s.focus.focus_parked is Some,
        s.focus.focused_pane == Some(s.focus.focus_parked->0.pane_id),
    ensures
        s.refresh_focus(Some((tab, PaneId::Plugin(s.me.own_plugin_id->0)))).list == s.list,
        s.refresh_focus(Some((tab, PaneId::Plugin(s.me.own_plugin_id->0)))).nav == s.nav,
        s.refresh_focus(Some((tab, PaneId::Plugin(s.me.own_plugin_id->0)))).calls == s.calls,
{
}

/// Only the instance in the focused tab acts on the direct keys.
pub proof fn law_only_one_instance_acts(s: StateV, tab: usize, pane: PaneId, forward: bool)
    requires
        !s.owns_tab(tab),
    ensures
        s.nav_step(forward, Some((tab, pane))) == (s, false),
        s.nav_go(Some((tab, pane))) == s,
{
}

// --- marks ---

/// A second mark on the same row takes the first one back.
pub proof fn law_mark_twice(s: StateV)
    ensures
        s.toggle_mark().toggle_mark().list.marked == s.list.marked,
{
    if s.highlighted() is Some {
        let t = s.toggle_mark();
        assert(t.highlighted() == s.highlighted());
        assert(t.toggle_mark().list.marked =~= s.list.marked);
    }
}

/// Marks survive leaving nav mode and coming back, until all are cleared.
pub proof fn law_marks_stay(s: StateV)
    ensures
        s.leave_nav_mode().list.marked == s.list.marked,
        s.enter_nav_mode().list.marked == s.list.marked,
        s.clear_marks().list.marked.is_empty(),
{
    law_exit_closes_everything(s);
}

/// A pane that left the list loses its mark, and no other pane does.
pub proof fn law_closing_drops_one_mark(s: StateV, id: u32)
    ensures
        s.prune_marks().list.marked.contains(id) == (s.list.marked.contains(id) && has_pane(
            s.list.selectable,
            id,
        )),
{
}

// --- search ---

/// A query starts empty and is kept between editing and navigating.
pub proof fn law_query_is_kept(s: StateV, phase: SearchPhase)
    ensures
        s.enter_search().nav.search is Some,
        s.enter_search().nav.search->0.query.len() == 0,
        s.enter_search().search_is_editing(),
        s.nav.search is Some ==> s.with_phase(phase).nav.search is Some
            && s.with_phase(phase).nav.search->0.query == s.nav.search->0.query
            && s.with_phase(phase).nav.search->0.hits == s.nav.search->0.hits,
{
}

/// Leaving a search drops the query and returns to the row that was selected before.
pub proof fn law_search_returns(s: StateV)
    requires
        s.nav.search is Some,
        s.list.selectable.len() <= usize::MAX,
    ensures
        s.exit_search().nav.search is None,
        s.nav.search->0.saved is Some && has_pane(s.list.selectable, s.nav.search->0.saved->0)
            ==> s.exit_search().selected_pane() == s.nav.search->0.saved,
{
    if s.nav.search->0.saved is Some && has_pane(
        s.list.selectable,
        s.nav.search->0.saved->0,
    ) {
        lemma_place_of(s.list.selectable, s.nav.search->0.saved->0);
    }
}

proof fn lemma_first_in_none(list: Seq<SelectableV>, set: Set<u32>)
    requires
        set.is_empty(),
    ensures
        first_in(list, set) is None,
    decreases list.len(),
{
    if list.len() > 0 {
        lemma_first_in_none(list.drop_first(), set);
    }
}

/// With no match there is nothing to jump to.
pub proof fn law_no_match_no_jump(s: StateV, query: Seq<char>)
    requires
        s.nav.search is Some,
        s.with_query(query).nav.search->0.hits.dom().is_empty(),
    ensures
        s.with_query(query).confirm_search() == s.with_query(query),
{
    let found = s.with_query(query).nav.search->0.hits;
    lemma_first_in_none(s.list.selectable, found.dom());
    if s.nav.search->0.cursor is Some {
        assert(!found.dom().contains(s.nav.search->0.cursor->0));
    }
}

/// While editing, every character without a modifier extends the query, `?` and the letters
/// of commands among them, and Backspace takes it back.
pub proof fn law_typing_extends_query(s: StateV, key: Key, c: char)
    requires
        s.search_is_editing(),
        !s.nav.help_overlay,
        key.bare == BareKey::Char(c),
        !key.hard(),
    ensures
        ({
            let t = s.nav_key(key).0;
            let back = Key {
                bare: BareKey::Backspace,
                ctrl: false,
                alt: false,
                shift: false,
                command: false,
            };
            &&& t.search_is_editing()
            &&& t.nav.nav_mode == s.nav.nav_mode
            &&& t.nav.search->0.query == s.nav.search->0.query.push(c)
            &&& t.nav_key(back).0.search_is_editing()
            &&& t.nav_key(back).0.nav.search->0.query == s.nav.search->0.query
        }),
{
    let query = s.nav.search->0.query;
    assert(query.push(c).drop_last() =~= query);
}

/// While navigating, a key without a meaning does nothing at all.
pub proof fn law_navigating_ignores(s: StateV, key: Key)
    requires
        s.nav.search is Some,
        !s.search_is_editing(),
        !s.nav.help_overlay,
        !key.hard(),
        key.bare != BareKey::Char('?'),
        !StateV::navigating_command(key),
    ensures
        s.nav_key(key) == (s, false),
{
}

/// A modifier leaves nav mode from either state of the search, but for the two keys that
/// mark and preview.
pub proof fn law_modifier_leaves_search(s: StateV, key: Key)
    requires
        s.nav.search is Some,
        !s.nav.help_overlay,
        key.hard(),
        !(key.alt && (key.bare == BareKey::Char('m') || key.bare == BareKey::Char('p'))),
    ensures
        !s.nav_key(key).0.nav.nav_mode,
{
    law_exit_closes_everything(s);
}

/// The way out of a search: the first Esc keeps the query, the second one drops it, and the
/// third one leaves nav mode.
pub proof fn law_way_out_of_search(s: StateV, key: Key)
    requires
        s.nav.nav_mode,
        s.search_is_editing(),
        in_tree(s.with_search(None)),
        key.bare == BareKey::Esc,
        !key.hard(),
    ensures
        ({
            let once = s.nav_key(key).0;
            let twice = once.nav_key(key).0;
            let thrice = twice.nav_key(key).0;
            &&& once.nav.nav_mode && once.nav.search is Some && !once.search_is_editing()
            &&& once.nav.search->0.query == s.nav.search->0.query
            &&& twice.nav.nav_mode && in_tree(twice)
            &&& !thrice.nav.nav_mode
        }),
{
    let twice = s.nav_key(key).0.nav_key(key).0;
    law_unknown_key_exits(twice, key);
}

// --- number jump ---

proof fn lemma_first_row(count: nat, from: nat, buffer: Seq<char>)
    requires
        from <= count,
    ensures
        from <= first_row(count, from, buffer) <= count,
        first_row(count, from, buffer) < count ==> begins_with(
            row_number(count, first_row(count, from, buffer)),
            buffer,
        ),
        forall|j: nat|
            from <= j < first_row(count, from, buffer) ==> !begins_with(
                #[trigger] row_number(count, j),
                buffer,
            ),
    decreases count - from,
{
    if from < count && !begins_with(row_number(count, from), buffer) {
        lemma_first_row(count, from + 1, buffer);
    }
}

/// Typing the last digit of a row's number jumps to that row.
pub proof fn law_whole_number_jumps(s: StateV, index: usize, digit: char)
    requires
        s.nav.jump is Some,
        index < s.list.selectable.len() <= usize::MAX,
        s.nav.jump->0.buffer.push(digit) == row_number(s.list.selectable.len(), index as nat),
    ensures
        s.push_jump_digit(digit).list.selected == index,
        !s.push_jump_digit(digit).nav.nav_mode,
        s.push_jump_digit(digit).calls.last() == HostCallV::FocusPane(
            s.list.selectable[index as int].pane_id,
            s.list.selectable[index as int].is_floating,
        ),
{
    let count = s.list.selectable.len();
    let buffer = row_number(count, index as nat);
    assert(buffer.take(buffer.len() as int) =~= buffer);
    assert(begins_with(row_number(count, index as nat), buffer));
    lemma_first_row(count, 0, buffer);
    let first = first_row(count, 0, buffer);
    assert(first <= index);
    law_numbers_prefix_free(count, first, index as nat);
    lemma_first_row(count, first + 1, buffer);
    let second = first_row(count, first + 1, buffer);
    if second < count {
        law_numbers_prefix_free(count, second, index as nat);
    }
    let typed = s.with_jump(Some(JumpStateV { buffer }));
    law_jump_focuses(typed, index);
    law_exit_closes_everything(typed.with_selected(index));
}

/// A number that no row has clears what was typed.
pub proof fn law_wrong_number_clears(s: StateV, digit: char)
    requires
        s.nav.jump is Some,
        forall|i: nat|
            i < s.list.selectable.len() ==> !begins_with(
                #[trigger] row_number(s.list.selectable.len(), i),
                s.nav.jump->0.buffer.push(digit),
            ),
    ensures
        s.push_jump_digit(digit).nav.jump is Some,
        s.push_jump_digit(digit).nav.jump->0.buffer.len() == 0,
        s.push_jump_digit(digit).nav.nav_mode == s.nav.nav_mode,
{
    lemma_first_row(s.list.selectable.len(), 0, s.nav.jump->0.buffer.push(digit));
}

/// Backspace takes the last digit back, as long as several rows are in the running.
pub proof fn law_digit_is_taken_back(s: StateV, digit: char, key: Key)
    requires
        s.nav.jump is Some,
        '0' <= digit <= '9',
        key.bare == BareKey::Backspace,
        !key.hard(),
        ({
            let count = s.list.selectable.len();
            let buffer = s.nav.jump->0.buffer.push(digit);
            let first = first_row(count, 0, buffer);
            first < count && first_row(count, first + 1, buffer) < count
        }),
    ensures
        s.push_jump_digit(digit).jump_key(key) == s,
{
    let buffer = s.nav.jump->0.buffer;
    assert(buffer.push(digit).drop_last() =~= buffer);
}

// --- triage ---

/// With nothing to triage there is nothing to jump to.
pub proof fn law_empty_triage_no_jump(s: StateV)
    requires
        s.triage_list().len() == 0,
    ensures
        s.confirm_triage() == s,
{
}

/// Leaving the triage list returns to the row that was selected before, wherever the cursor
/// went.
pub proof fn law_triage_returns(s: StateV)
    requires
        s.nav.triage is Some,
        s.list.selectable.len() <= usize::MAX,
    ensures
        s.exit_triage().nav.triage is None,
        s.nav.triage->0.saved is Some && has_pane(s.list.selectable, s.nav.triage->0.saved->0)
            ==> s.exit_triage().selected_pane() == s.nav.triage->0.saved,
{
    if s.nav.triage->0.saved is Some && has_pane(s.list.selectable, s.nav.triage->0.saved->0) {
        lemma_place_of(s.list.selectable, s.nav.triage->0.saved->0);
    }
}

/// Moving the cursor of the triage list does not forget where to return.
pub proof fn law_triage_remembers(s: StateV, forward: bool)
    requires
        s.nav.triage is Some,
    ensures
        s.move_triage_cursor(forward).nav.triage is Some,
        s.move_triage_cursor(forward).nav.triage->0.saved == s.nav.triage->0.saved,
        s.enter_triage().nav.triage->0.saved == s.selected_pane(),
{
}

// --- termination ---

/// Without a pane to end the prompt does not open.
pub proof fn law_no_target_no_prompt(s: StateV)
    requires
        s.list.selectable.len() == 0,
    ensures
        s.enter_termination() == s,
{
}

/// Backing out of the prompt ends nothing and keeps the marks.
pub proof fn law_cancel_ends_nothing(s: StateV, key: Key)
    requires
        key.bare == BareKey::Esc,
        !key.hard(),
    ensures
        s.termination_key(key) == s.with_termination(None),
        s.termination_key(key).calls == s.calls,
        s.termination_key(key).list == s.list,
{
}

// --- preview ---

/// The same key opens and closes the preview.
pub proof fn law_preview_toggles(s: StateV)
    ensures
        s.toggle_preview().nav.preview is Some == s.nav.preview is None,
{
}

/// Looking at a pane in the preview does not mark it as read, and moves neither the selection
/// nor the focus.
pub proof fn law_preview_only_looks(s: StateV)
    ensures
        s.refresh_preview().status == s.status,
        s.refresh_preview().list == s.list,
        s.refresh_preview().focus == s.focus,
{
}

// --- clicks ---

/// A click on anything but a row of a pane does nothing: not on the heading of a tab, and not
/// below the list.
pub proof fn law_only_panes_are_clickable(s: StateV, line: int)
    requires
        ({
            let rows = s.screen_rows(s.screen.viewport_rows as nat);
            0 <= line < rows.len() ==> !(rows[line] is Pane) && !(rows[line] is Cwd) && !(
            rows[line] is Triage)
        }),
    ensures
        s.click(line) == (s, false),
{
}

/// The pane of a row.
pub open spec fn row_pane(row: RowV) -> Option<u32> {
    match row {
        RowV::Pane(e, _, _) => Some(e.pane_id),
        RowV::Cwd(e, _, _, _) => Some(e.pane_id),
        RowV::Triage(e, _) => Some(e.pane_id),
        _ => None,
    }
}

/// The panes of the rows are in the list.
pub open spec fn rows_listed(rows: Seq<RowV>, list: Seq<SelectableV>) -> bool {
    forall|i: int|
        0 <= i < rows.len() && row_pane(#[trigger] rows[i]) is Some ==> has_pane(
            list,
            row_pane(rows[i])->0,
        )
}

proof fn lemma_listed_append(a: Seq<RowV>, b: Seq<RowV>, list: Seq<SelectableV>)
    requires
        rows_listed(a, list),
        rows_listed(b, list),
    ensures
        rows_listed(a + b, list),
{
    assert forall|i: int| 0 <= i < (a + b).len() && row_pane(#[trigger] (a + b)[i]) is Some implies
        has_pane(list, row_pane((a + b)[i])->0) by {
        if i < a.len() {
            assert((a + b)[i] == a[i]);
        } else {
            assert((a + b)[i] == b[i - a.len()]);
        }
    }
}

proof fn lemma_tab_rows_listed(s: StateV, position: usize, n: nat, base: nat)
    requires
        n <= s.list.selectable.len(),
    ensures
        rows_listed(
            s.tab_rows(position, s.list.selectable.take(n as int), base),
            s.list.selectable,
        ),
    decreases n,
{
    let list = s.list.selectable.take(n as int);
    if n > 0 {
        let e = list.last();
        assert(list.drop_last() =~= s.list.selectable.take(n - 1));
        lemma_tab_rows_listed(s, position, (n - 1) as nat, base);
        assert(s.list.selectable[n - 1].pane_id == e.pane_id);
        assert(has_pane(s.list.selectable, e.pane_id));
        let index = capped(
            base + count_in(list.drop_last(), position),
        );
        assert(rows_listed(s.entry_rows(e, index), s.list.selectable));
        lemma_listed_append(
            s.tab_rows(position, list.drop_last(), base),
            s.entry_rows(e, index),
            s.list.selectable,
        );
    }
}

proof fn lemma_tree_rows_listed(s: StateV, tabs: Seq<TabInfoV>)
    ensures
        rows_listed(s.tree_rows(tabs), s.list.selectable),
    decreases tabs.len(),
{
    if tabs.len() > 0 {
        let front = s.tree_rows(tabs.drop_last());
        let tab = tabs.last();
        let all = s.list.selectable;
        lemma_tree_rows_listed(s, tabs.drop_last());
        assert(all.take(all.len() as int) =~= all);
        lemma_tab_rows_listed(s, tab.position, all.len(), s.tree_count(tabs.drop_last()));
        assert(rows_listed(seq![RowV::Tab(tab)], all));
        lemma_listed_append(front, seq![RowV::Tab(tab)], all);
        assert(front + seq![RowV::Tab(tab)] =~= front.push(RowV::Tab(tab)));
        if !s.tab_hidden(tab.position) {
            lemma_listed_append(
                front.push(RowV::Tab(tab)),
                s.tab_rows(tab.position, all, s.tree_count(tabs.drop_last())),
                all,
            );
        }
    }
}

proof fn lemma_ranked_listed(s: StateV, n: nat)
    requires
        n <= s.list.selectable.len(),
    ensures
        forall|i: int|
            0 <= i < s.status.ranked(s.list.selectable.take(n as int)).len() ==> has_pane(
                s.list.selectable,
                (#[trigger] s.status.ranked(s.list.selectable.take(n as int))[i]).pane_id,
            ),
    decreases n,
{
    let list = s.list.selectable.take(n as int);
    if n > 0 {
        let e = list.last();
        assert(list.drop_last() =~= s.list.selectable.take(n - 1));
        lemma_ranked_listed(s, (n - 1) as nat);
        assert(s.list.selectable[n - 1].pane_id == e.pane_id);
        let before = s.status.ranked(list.drop_last());
        lemma_slot_in_list(s, before, e);
        let at = s.status.slot(before, e) as int;
        assert forall|i: int| 0 <= i < s.status.ranked(list).len() implies has_pane(
            s.list.selectable,
            (#[trigger] s.status.ranked(list)[i]).pane_id,
        ) by {
            if s.status.urgency(e.pane_id) is Some {
                if i < at {
                    assert(s.status.ranked(list)[i] == before[i]);
                } else if i > at {
                    assert(s.status.ranked(list)[i] == before[i - 1]);
                } else {
                    assert(s.status.ranked(list)[i] == e);
                }
            }
        }
    }
}

proof fn lemma_slot_in_list(s: StateV, list: Seq<SelectableV>, e: SelectableV)
    ensures
        s.status.slot(list, e) <= list.len(),
    decreases list.len(),
{
    if list.len() > 0 && !s.status.more_urgent(e.pane_id, list[0].pane_id) {
        lemma_slot_in_list(s, list.drop_first(), e);
    }
}

proof fn lemma_content_listed(s: StateV)
    ensures
        rows_listed(s.content_rows(), s.list.selectable),
{
    if s.nav.help_overlay {
    } else if s.nav.triage is Some {
        let all = s.list.selectable;
        lemma_ranked_listed(s, all.len());
        assert(all.take(all.len() as int) =~= all);
        assert(s.triage_list() == s.status.ranked(all));
        let rows = s.triage_rows();
        assert forall|i: int| 0 <= i < rows.len() && row_pane(#[trigger] rows[i]) is Some implies
            has_pane(all, row_pane(rows[i])->0) by {
            if s.triage_list().len() > 0 {
                assert(row_pane(rows[i])->0 == s.triage_list()[i].pane_id);
            }
        }
    } else {
        lemma_tree_rows_listed(s, sorted_tabs(s.list.tabs));
    }
}

proof fn lemma_screen_listed(s: StateV, rows: nat)
    ensures
        rows_listed(s.screen_rows(rows), s.list.selectable),
{
    let all = s.list.selectable;
    let top = frame_top();
    let bottom = frame_bottom();
    let content = s.content_rows();
    lemma_content_listed(s);
    assert(rows_listed(top, all));
    assert(rows_listed(bottom, all));
    lemma_listed_append(top, content, all);
    lemma_listed_append(top + content, bottom, all);
    if rows > 6 && s.visible_rows().len() > 0 {
        let area = (rows - 6) as nat;
        let scroll = s.screen.scroll as nat;
        law_scroll_in_list(content.len(), area, scroll, None);
        let shown = window(content, area, scroll);
        let from = scrolled(content.len(), area, scroll, None);
        let count = shown_rows(content.len(), area, from);
        let middle = content.subrange(from as int, (from + count) as int);
        assert forall|i: int| 0 <= i < middle.len() && row_pane(#[trigger] middle[i]) is Some
            implies has_pane(all, row_pane(middle[i])->0) by {
            assert(middle[i] == content[from + i]);
        }
        let above = if from > 0 {
            seq![RowV::Overflow(from as usize, true)]
        } else {
            Seq::empty()
        };
        let below = if from + count < content.len() {
            seq![RowV::Overflow((content.len() - from - count) as usize, false)]
        } else {
            Seq::empty()
        };
        assert(rows_listed(above, all) && rows_listed(below, all));
        lemma_listed_append(above, middle, all);
        lemma_listed_append(above + middle, below, all);
        let sized = resized(shown, area);
        assert forall|i: int| 0 <= i < sized.len() && row_pane(#[trigger] sized[i]) is Some
            implies has_pane(all, row_pane(sized[i])->0) by {
            if i < shown.len() {
                assert(sized[i] == shown[i]);
            } else {
                assert(sized[i] == RowV::Blank);
            }
        }
        lemma_listed_append(top, sized, all);
        lemma_listed_append(top + sized, bottom, all);
    }
}

/// A click on the row of a pane selects it and asks the host to focus it. Nav mode is left.
pub proof fn law_click_jumps(s: StateV, line: int, id: u32)
    requires
        s.pane_at_row(line) == Some(id),
        s.list.selectable.len() <= usize::MAX,
    ensures
        s.click(line).1,
        !s.click(line).0.nav.nav_mode,
        s.click(line).0.selected_pane() == Some(id),
        s.click(line).0.calls.last() is FocusPane,
        s.click(line).0.calls.last()->FocusPane_0 == id,
{
    law_exit_closes_everything(s);
    let rows = s.screen_rows(s.screen.viewport_rows as nat);
    lemma_screen_listed(s, s.screen.viewport_rows as nat);
    assert(row_pane(rows[line]) == Some(id));
    lemma_place_of(s.list.selectable, id);
}

} // verus!
