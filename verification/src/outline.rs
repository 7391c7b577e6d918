//! What holds of the tree: which panes it lists, in which order, and which row stands for which
//! pane.

use vstd::prelude::*;

use crate::attention::reported_once;
use crate::host::{PaneInfoV, PaneManifestV, TabInfoV, TabPanesV};
use crate::ids::group_views;
use crate::line::capped;
use crate::listing::{key_order, law_key_order, listed, listed_panes, listed_tabs, tab_keys};
use crate::rows::{count_in, sorted_tabs, tab_positions, RowV};
use crate::state::{SelectableV, StateV};
use crate::text::trimmed;

verus! {

broadcast use group_views;

// --- the list of panes ---

/// The entry stands for this pane of the tab: a terminal that is not hidden, under its title,
/// or under its command where the title is blank.
pub open spec fn stands_for(e: SelectableV, position: usize, p: PaneInfoV) -> bool {
    !p.is_plugin && !p.is_suppressed && e.tab_position == position && e.pane_id == p.id
        && e.is_floating == p.is_floating && (if trimmed(p.title).len() > 0 {
        e.title == p.title
    } else if p.terminal_command is Some {
        e.title == p.terminal_command->0
    } else {
        e.title.len() == 0
    })
}

/// The place of the pane behind an entry among the panes of its tab.
spec fn origin(position: usize, panes: Seq<PaneInfoV>, a: int) -> int
    decreases panes.len(),
{
    if panes.len() == 0 || a >= listed_panes(position, panes.drop_last()).len() {
        panes.len() - 1
    } else {
        origin(position, panes.drop_last(), a)
    }
}

proof fn lemma_origin(position: usize, panes: Seq<PaneInfoV>, a: int)
    requires
        0 <= a < listed_panes(position, panes).len(),
    ensures
        0 <= origin(position, panes, a) < panes.len(),
        stands_for(
            listed_panes(position, panes)[a],
            position,
            panes[origin(position, panes, a)],
        ),
    decreases panes.len(),
{
    let front = panes.drop_last();
    if a < listed_panes(position, front).len() {
        lemma_origin(position, front, a);
        assert(front[origin(position, front, a)] == panes[origin(position, front, a)]);
    }
}

proof fn lemma_origins_rise(position: usize, panes: Seq<PaneInfoV>, a: int, b: int)
    requires
        0 <= a < b < listed_panes(position, panes).len(),
    ensures
        origin(position, panes, a) < origin(position, panes, b),
    decreases panes.len(),
{
    let front = panes.drop_last();
    let rest = listed_panes(position, front);
    if b < rest.len() {
        lemma_origins_rise(position, front, a, b);
    } else {
        lemma_origin(position, front, a);
    }
}

proof fn lemma_entry_of(position: usize, panes: Seq<PaneInfoV>, i: int) -> (a: int)
    requires
        0 <= i < panes.len(),
        !panes[i].is_plugin,
        !panes[i].is_suppressed,
    ensures
        0 <= a < listed_panes(position, panes).len(),
        stands_for(listed_panes(position, panes)[a], position, panes[i]),
    decreases panes.len(),
{
    let front = panes.drop_last();
    let rest = listed_panes(position, front);
    if i < front.len() {
        assert(front[i] == panes[i]);
        let a = lemma_entry_of(position, front, i);
        assert(rest[a] == listed_panes(position, panes)[a]);
        a
    } else {
        rest.len() as int
    }
}

/// Some pane of the tab stands behind the entry.
pub open spec fn from_tab(e: SelectableV, tab: TabPanesV) -> bool {
    exists|i: int|
        0 <= i < tab.panes.len() && stands_for(e, tab.position, #[trigger] tab.panes[i])
}

/// Two panes of the tab stand behind the entries, in this order.
pub open spec fn in_tab_order(a: SelectableV, b: SelectableV, tab: TabPanesV) -> bool {
    exists|i: int, j: int|
        0 <= i < j < tab.panes.len() && stands_for(a, tab.position, #[trigger] tab.panes[i])
            && stands_for(b, tab.position, #[trigger] tab.panes[j])
}

/// The place, in this order of tabs, of the tab behind an entry.
spec fn tab_origin(tabs: Seq<TabPanesV>, order: Seq<usize>, a: int) -> int
    decreases order.len(),
{
    if order.len() == 0 || a >= listed_tabs(tabs, order.drop_last()).len() {
        order.len() - 1
    } else {
        tab_origin(tabs, order.drop_last(), a)
    }
}

proof fn lemma_tab_origin(tabs: Seq<TabPanesV>, order: Seq<usize>, a: int)
    requires
        0 <= a < listed_tabs(tabs, order).len(),
    ensures
        0 <= tab_origin(tabs, order, a) < order.len(),
        from_tab(listed_tabs(tabs, order)[a], tabs[order[tab_origin(tabs, order, a)] as int]),
    decreases order.len(),
{
    let front = order.drop_last();
    let rest = listed_tabs(tabs, front);
    let t = tabs[order.last() as int];
    if a < rest.len() {
        lemma_tab_origin(tabs, front, a);
        assert(front[tab_origin(tabs, front, a)] == order[tab_origin(tabs, front, a)]);
    } else {
        let i = origin(t.position, t.panes, a - rest.len());
        lemma_origin(t.position, t.panes, a - rest.len());
        assert(listed_tabs(tabs, order)[a] == listed_panes(t.position, t.panes)[a - rest.len()]);
        assert(stands_for(listed_tabs(tabs, order)[a], t.position, t.panes[i]));
    }
}

proof fn lemma_tab_origins_rise(tabs: Seq<TabPanesV>, order: Seq<usize>, a: int, b: int)
    requires
        0 <= a < b < listed_tabs(tabs, order).len(),
    ensures
        tab_origin(tabs, order, a) <= tab_origin(tabs, order, b),
        tab_origin(tabs, order, a) == tab_origin(tabs, order, b) ==> in_tab_order(
            listed_tabs(tabs, order)[a],
            listed_tabs(tabs, order)[b],
            tabs[order[tab_origin(tabs, order, a)] as int],
        ),
    decreases order.len(),
{
    let front = order.drop_last();
    let rest = listed_tabs(tabs, front);
    let list = listed_tabs(tabs, order);
    let t = tabs[order.last() as int];
    let tail = listed_panes(t.position, t.panes);
    if b < rest.len() {
        lemma_tab_origins_rise(tabs, front, a, b);
        lemma_tab_origin(tabs, front, a);
        assert(front[tab_origin(tabs, front, a)] == order[tab_origin(tabs, front, a)]);
    } else if a < rest.len() {
        lemma_tab_origin(tabs, front, a);
    } else {
        let x = a - rest.len();
        let y = b - rest.len();
        lemma_origin(t.position, t.panes, x);
        lemma_origin(t.position, t.panes, y);
        lemma_origins_rise(t.position, t.panes, x, y);
        assert(list[a] == tail[x] && list[b] == tail[y]);
        assert(stands_for(list[a], t.position, t.panes[origin(t.position, t.panes, x)]));
        assert(stands_for(list[b], t.position, t.panes[origin(t.position, t.panes, y)]));
    }
}

proof fn lemma_tab_entry_of(tabs: Seq<TabPanesV>, order: Seq<usize>, k: int, i: int) -> (a: int)
    requires
        0 <= k < order.len(),
        0 <= i < tabs[order[k] as int].panes.len(),
        !tabs[order[k] as int].panes[i].is_plugin,
        !tabs[order[k] as int].panes[i].is_suppressed,
    ensures
        0 <= a < listed_tabs(tabs, order).len(),
        stands_for(
            listed_tabs(tabs, order)[a],
            tabs[order[k] as int].position,
            tabs[order[k] as int].panes[i],
        ),
    decreases order.len(),
{
    let front = order.drop_last();
    let rest = listed_tabs(tabs, front);
    if k < front.len() {
        assert(front[k] == order[k]);
        let a = lemma_tab_entry_of(tabs, front, k, i);
        assert(rest[a] == listed_tabs(tabs, order)[a]);
        a
    } else {
        let t = tabs[order.last() as int];
        let a = lemma_entry_of(t.position, t.panes, i);
        assert(listed_tabs(tabs, order)[rest.len() + a] == listed_panes(t.position, t.panes)[a]);
        rest.len() + a
    }
}

proof fn lemma_tab_order(m: PaneManifestV)
    requires
        reported_once(m),
        m.tabs.len() <= usize::MAX,
    ensures
        ({
            let order = key_order(tab_keys(m.tabs), m.tabs.len());
            &&& order.len() == m.tabs.len()
            &&& forall|j: int| 0 <= j < order.len() ==> (#[trigger] order[j]) < m.tabs.len()
            &&& forall|j: int, k: int|
                0 <= j < k < order.len() ==> m.tabs[#[trigger] order[j] as int].position
                    < m.tabs[#[trigger] order[k] as int].position
            &&& forall|k: usize| k < m.tabs.len() ==> #[trigger] order.contains(k)
        }),
{
    let keys = tab_keys(m.tabs);
    let order = key_order(keys, m.tabs.len());
    law_key_order(keys, m.tabs.len());
    assert forall|j: int, k: int| 0 <= j < k < order.len() implies m.tabs[
        #[trigger] order[j] as int].position < m.tabs[#[trigger] order[k] as int].position by {
        let a = order[j] as int;
        let b = order[k] as int;
        assert(keys[a] == m.tabs[a].position && keys[b] == m.tabs[b].position);
        assert(keys[a] < keys[b] || (keys[a] == keys[b] && a < b));
        if a < b {
            assert(m.tabs[a].position != m.tabs[b].position);
        }
    }
}

/// The list made from a report holds an entry for a pane if and only if the pane is a terminal
/// that is not hidden.
pub proof fn law_list_holds_terminals(s: StateV, m: PaneManifestV)
    requires
        s.list.panes == Some(m),
        reported_once(m),
        m.tabs.len() <= usize::MAX,
    ensures
        forall|k: int, i: int|
            0 <= k < m.tabs.len() && 0 <= i < m.tabs[k].panes.len() && !(
            #[trigger] m.tabs[k].panes[i]).is_plugin && !m.tabs[k].panes[i].is_suppressed
                ==> exists|a: int|
                0 <= a < s.rebuild_selectable().list.selectable.len() && stands_for(
                    #[trigger] s.rebuild_selectable().list.selectable[a],
                    m.tabs[k].position,
                    m.tabs[k].panes[i],
                ),
        forall|a: int|
            0 <= a < s.rebuild_selectable().list.selectable.len() ==> exists|k: int|
                0 <= k < m.tabs.len() && from_tab(
                    #[trigger] s.rebuild_selectable().list.selectable[a],
                    #[trigger] m.tabs[k],
                ),
{
    let order = key_order(tab_keys(m.tabs), m.tabs.len());
    let list = listed(m);
    assert(s.rebuild_selectable().list.selectable == list);
    lemma_tab_order(m);
    assert forall|k: int, i: int|
        0 <= k < m.tabs.len() && 0 <= i < m.tabs[k].panes.len() && !(
        #[trigger] m.tabs[k].panes[i]).is_plugin
            && !m.tabs[k].panes[i].is_suppressed implies exists|a: int|
        0 <= a < list.len() && stands_for(
            #[trigger] list[a],
            m.tabs[k].position,
            m.tabs[k].panes[i],
        ) by {
        assert(order.contains(k as usize));
        let h = choose|h: int| 0 <= h < order.len() && order[h] == k as usize;
        let a = lemma_tab_entry_of(m.tabs, order, h, i);
        assert(stands_for(list[a], m.tabs[k].position, m.tabs[k].panes[i]));
    }
    assert forall|a: int| 0 <= a < list.len() implies exists|k: int|
        0 <= k < m.tabs.len() && from_tab(#[trigger] list[a], #[trigger] m.tabs[k]) by {
        let h = tab_origin(m.tabs, order, a);
        lemma_tab_origin(m.tabs, order, a);
        assert(from_tab(list[a], m.tabs[order[h] as int]));
    }
}

/// The list goes by the positions of the tabs, in whatever order they are reported, and the
/// panes of one tab keep the order in which they are reported.
pub proof fn law_list_is_in_order(s: StateV, m: PaneManifestV, a: int, b: int)
    requires
        s.list.panes == Some(m),
        reported_once(m),
        m.tabs.len() <= usize::MAX,
        0 <= a < b < s.rebuild_selectable().list.selectable.len(),
    ensures
        ({
            let list = s.rebuild_selectable().list.selectable;
            &&& list[a].tab_position <= list[b].tab_position
            &&& list[a].tab_position == list[b].tab_position ==> exists|k: int|
                0 <= k < m.tabs.len() && in_tab_order(list[a], list[b], #[trigger] m.tabs[k])
        }),
{
    let order = key_order(tab_keys(m.tabs), m.tabs.len());
    let list = listed(m);
    assert(s.rebuild_selectable().list.selectable == list);
    lemma_tab_order(m);
    lemma_tab_origin(m.tabs, order, a);
    lemma_tab_origin(m.tabs, order, b);
    lemma_tab_origins_rise(m.tabs, order, a, b);
    let h = tab_origin(m.tabs, order, a);
    let k = tab_origin(m.tabs, order, b);
    if h < k {
        assert(m.tabs[order[h] as int].position < m.tabs[order[k] as int].position);
    } else {
        assert(in_tab_order(list[a], list[b], m.tabs[order[h] as int]));
    }
}

// --- the rows of the tree ---

/// The list goes by tabs, and every tab that it names is there once.
pub open spec fn in_tabs(list: Seq<SelectableV>, tabs: Seq<TabInfoV>) -> bool {
    &&& list.len() <= usize::MAX
    &&& tabs.len() <= usize::MAX
    &&& forall|a: int, b: int|
        0 <= a < b < list.len() ==> (#[trigger] list[a]).tab_position <= (
        #[trigger] list[b]).tab_position
    &&& forall|i: int, j: int|
        0 <= i < j < tabs.len() ==> (#[trigger] tabs[i]).position != (#[trigger] tabs[j]).position
    &&& forall|a: int|
        0 <= a < list.len() ==> exists|i: int|
            0 <= i < tabs.len() && (#[trigger] tabs[i]).position == (
            #[trigger] list[a]).tab_position
}

/// The panes that the rows show, with the numbers that they carry.
pub open spec fn shown_panes(rows: Seq<RowV>) -> Seq<(SelectableV, usize)>
    decreases rows.len(),
{
    if rows.len() == 0 {
        Seq::empty()
    } else {
        let front = shown_panes(rows.drop_last());
        match rows.last() {
            RowV::Pane(e, index, _) => front.push((e, index)),
            _ => front,
        }
    }
}

proof fn lemma_shown_panes_add(a: Seq<RowV>, b: Seq<RowV>)
    ensures
        shown_panes(a + b) == shown_panes(a) + shown_panes(b),
    decreases b.len(),
{
    if b.len() == 0 {
        assert(a + b =~= a);
        assert(shown_panes(a) + shown_panes(b) =~= shown_panes(a));
    } else {
        lemma_shown_panes_add(a, b.drop_last());
        assert((a + b).drop_last() =~= a + b.drop_last());
        assert((a + b).last() == b.last());
        assert(shown_panes(a + b) =~= shown_panes(a) + shown_panes(b));
    }
}

/// The number of entries in tabs in front of this position.
spec fn ahead(list: Seq<SelectableV>, position: int) -> nat
    decreases list.len(),
{
    if list.len() == 0 {
        0
    } else if list.last().tab_position < position {
        ahead(list.drop_last(), position) + 1
    } else {
        ahead(list.drop_last(), position)
    }
}

spec fn by_tab(list: Seq<SelectableV>) -> bool {
    forall|a: int, b: int|
        0 <= a < b < list.len() ==> (#[trigger] list[a]).tab_position <= (
        #[trigger] list[b]).tab_position
}

proof fn lemma_ahead(list: Seq<SelectableV>, position: int)
    requires
        by_tab(list),
    ensures
        ahead(list, position) <= list.len(),
        forall|a: int|
            0 <= a < list.len() ==> ((#[trigger] list[a]).tab_position < position <==> a < ahead(
                list,
                position,
            )),
    decreases list.len(),
{
    if list.len() > 0 {
        let front = list.drop_last();
        let last = list.len() - 1;
        assert forall|a: int, b: int| 0 <= a < b < front.len() implies (
        #[trigger] front[a]).tab_position <= (#[trigger] front[b]).tab_position by {
            assert(front[a] == list[a] && front[b] == list[b]);
        }
        lemma_ahead(front, position);
        assert forall|a: int| 0 <= a < list.len() implies ((#[trigger] list[a]).tab_position
            < position <==> a < ahead(list, position)) by {
            if a < last {
                assert(front[a] == list[a]);
                assert(list[a].tab_position <= list[last].tab_position);
            }
            if last > 0 {
                assert(front[last - 1] == list[last - 1]);
                assert(list[last - 1].tab_position <= list[last].tab_position);
            }
        }
    }
}

proof fn lemma_count_in(list: Seq<SelectableV>, position: usize)
    requires
        by_tab(list),
    ensures
        count_in(list, position) == ahead(list, position + 1) - ahead(list, position as int),
    decreases list.len(),
{
    if list.len() > 0 {
        let front = list.drop_last();
        assert forall|a: int, b: int| 0 <= a < b < front.len() implies (
        #[trigger] front[a]).tab_position <= (#[trigger] front[b]).tab_position by {
            assert(front[a] == list[a] && front[b] == list[b]);
        }
        lemma_count_in(front, position);
    }
}

proof fn lemma_entry_panes(s: StateV, e: SelectableV, index: nat)
    requires
        s.nav.search is None,
    ensures
        shown_panes(s.entry_rows(e, index)) == seq![(e, index as usize)],
{
    reveal_with_fuel(shown_panes, 3);
    let own = s.entry_rows(e, index);
    let pane = seq![RowV::Pane(e, index as usize, None)];
    assert(pane.drop_last() =~= Seq::empty());
    match s.cwd_row_of(e) {
        Some(cwd) => {
            let row = RowV::Cwd(e, index as usize, cwd, s.shown_cwd_hit(e.pane_id));
            assert(own =~= pane.push(row));
            assert(own.drop_last() =~= pane);
            assert(own.last() == row);
        },
        None => {
            assert(own =~= pane);
        },
    }
    assert(shown_panes(own) =~= seq![(e, index as usize)]);
}

#[verifier::rlimit(40)]
proof fn lemma_tab_panes(s: StateV, position: usize, list: Seq<SelectableV>, base: nat)
    requires
        s.nav.search is None,
        by_tab(list),
        base + list.len() <= usize::MAX + ahead(list, position as int),
    ensures
        shown_panes(s.tab_rows(position, list, base)) == Seq::new(
            count_in(list, position),
            |j: int| (list[ahead(list, position as int) + j], (base + j) as usize),
        ),
    decreases list.len(),
{
    let rows = s.tab_rows(position, list, base);
    let at = ahead(list, position as int) as int;
    let want = Seq::new(count_in(list, position), |j: int| (list[at + j], (base + j) as usize));
    if list.len() == 0 {
        assert(shown_panes(rows) =~= want);
    } else {
        let front = list.drop_last();
        let last = list.len() - 1;
        let e = list.last();
        assert forall|a: int, b: int| 0 <= a < b < front.len() implies (
        #[trigger] front[a]).tab_position <= (#[trigger] front[b]).tab_position by {
            assert(front[a] == list[a] && front[b] == list[b]);
        }
        lemma_ahead(list, position as int);
        lemma_ahead(front, position as int);
        lemma_ahead(list, position + 1);
        lemma_ahead(front, position + 1);
        lemma_count_in(front, position);
        lemma_count_in(list, position);
        let before = ahead(front, position as int) as int;
        let c = count_in(front, position);
        lemma_tab_panes(s, position, front, base);
        let done = Seq::new(c, |j: int| (front[before + j], (base + j) as usize));
        if e.tab_position == position {
            assert(list[last] == e);
            assert(ahead(front, position + 1) == front.len()) by {
                if ahead(front, position + 1) < front.len() {
                    let a = ahead(front, position + 1) as int;
                    assert(front[a].tab_position >= position + 1);
                    assert(list[a].tab_position <= list[last].tab_position);
                }
            }
            assert(before + c == last);
            assert(at == before);
            let index = capped(base + c);
            let own = s.entry_rows(e, index);
            lemma_shown_panes_add(s.tab_rows(position, front, base), own);
            assert(base + c <= usize::MAX);
            lemma_entry_panes(s, e, index);
            assert(shown_panes(rows) =~= done + seq![(e, (base + c) as usize)]);
            assert forall|j: int| 0 <= j < c implies want[j] == done[j] by {
                assert(front[before + j] == list[at + j]);
            }
            assert(shown_panes(rows) =~= want);
        } else {
            assert(at + count_in(list, position) <= list.len());
            assert(c == count_in(list, position));
            if c > 0 {
                assert(front[before].tab_position == position) by {
                    assert(before < ahead(front, position + 1));
                }
                assert(list[before].tab_position <= list[last].tab_position);
                assert(at == before);
            }
            assert forall|j: int| 0 <= j < c implies want[j] == done[j] by {
                assert(front[before + j] == list[at + j]);
            }
            assert(done =~= want);
        }
    }
}

spec fn rising(tabs: Seq<TabInfoV>) -> bool {
    forall|i: int, j: int|
        0 <= i < j < tabs.len() ==> (#[trigger] tabs[i]).position < (#[trigger] tabs[j]).position
}

spec fn tab_there(tabs: Seq<TabInfoV>, position: usize) -> bool {
    exists|i: int| 0 <= i < tabs.len() && (#[trigger] tabs[i]).position == position
}

#[verifier::rlimit(40)]
proof fn lemma_tree_panes(s: StateV, tabs: Seq<TabInfoV>)
    requires
        s.nav.search is None,
        by_tab(s.list.selectable),
        s.list.selectable.len() <= usize::MAX,
        rising(tabs),
        tabs.len() > 0,
        forall|a: int|
            0 <= a < s.list.selectable.len() && (#[trigger] s.list.selectable[a]).tab_position
                <= tabs.last().position ==> tab_there(tabs, s.list.selectable[a].tab_position),
    ensures
        s.tree_count(tabs) == ahead(s.list.selectable, tabs.last().position + 1),
        shown_panes(s.tree_rows(tabs)) == Seq::new(
            ahead(s.list.selectable, tabs.last().position + 1),
            |j: int| (s.list.selectable[j], j as usize),
        ),
    decreases tabs.len(),
{
    let list = s.list.selectable;
    let front = tabs.drop_last();
    let last = tabs.len() - 1;
    let p = tabs.last().position;
    assert(tabs[last] == tabs.last());
    lemma_ahead(list, p as int);
    lemma_ahead(list, p + 1);
    lemma_count_in(list, p);
    let base = s.tree_count(front);
    if front.len() > 0 {
        assert forall|i: int, j: int| 0 <= i < j < front.len() implies (
        #[trigger] front[i]).position < (#[trigger] front[j]).position by {
            assert(front[i] == tabs[i] && front[j] == tabs[j]);
        }
        let q = front.last().position;
        assert(front[last - 1] == tabs[last - 1]);
        assert(q < p);
        assert forall|a: int|
            0 <= a < list.len() && (#[trigger] list[a]).tab_position <= q implies tab_there(
            front,
            list[a].tab_position,
        ) by {
            assert(tab_there(tabs, list[a].tab_position));
            let i = choose|i: int|
                0 <= i < tabs.len() && (#[trigger] tabs[i]).position == list[a].tab_position;
            assert(front[i] == tabs[i]);
        }
        lemma_tree_panes(s, front);
        lemma_ahead(list, q + 1);
        assert(ahead(list, q + 1) == ahead(list, p as int)) by {
            if ahead(list, q + 1) < ahead(list, p as int) {
                let a = ahead(list, q + 1) as int;
                assert(list[a].tab_position > q);
                assert(list[a].tab_position < p);
                assert(tab_there(tabs, list[a].tab_position));
                let i = choose|i: int|
                    0 <= i < tabs.len() && (#[trigger] tabs[i]).position == list[a].tab_position;
                if i < last - 1 {
                    assert(tabs[i].position < tabs[last - 1].position);
                }
            }
            if ahead(list, q + 1) > ahead(list, p as int) {
                let a = ahead(list, p as int) as int;
                assert(list[a].tab_position < q + 1);
            }
        }
    } else {
        assert(ahead(list, p as int) == 0) by {
            if ahead(list, p as int) > 0 {
                assert(list[0].tab_position < p);
                assert(tab_there(tabs, list[0].tab_position));
            }
        }
        assert(s.tree_rows(front) =~= Seq::empty());
    }
    assert(base == ahead(list, p as int));
    lemma_tab_panes(s, p, list, base);
    let head = s.tree_rows(front);
    let body = s.tab_rows(p, list, base);
    lemma_shown_panes_add(head.push(RowV::Tab(tabs.last())), body);
    assert(head.push(RowV::Tab(tabs.last())).drop_last() =~= head);
    assert(shown_panes(head.push(RowV::Tab(tabs.last()))) == shown_panes(head));
    assert(shown_panes(s.tree_rows(tabs)) =~= Seq::new(
        ahead(list, p + 1),
        |j: int| (list[j], j as usize),
    ));
}

proof fn lemma_sorted_tabs(tabs: Seq<TabInfoV>)
    requires
        tabs.len() <= usize::MAX,
        forall|i: int, j: int|
            0 <= i < j < tabs.len() ==> (#[trigger] tabs[i]).position != (
            #[trigger] tabs[j]).position,
    ensures
        sorted_tabs(tabs).len() == tabs.len(),
        rising(sorted_tabs(tabs)),
        forall|i: int|
            0 <= i < tabs.len() ==> tab_there(sorted_tabs(tabs), (#[trigger] tabs[i]).position),
{
    let keys = tab_positions(tabs);
    let order = key_order(keys, tabs.len());
    let sorted = sorted_tabs(tabs);
    law_key_order(keys, tabs.len());
    assert forall|i: int, j: int| 0 <= i < j < sorted.len() implies (
    #[trigger] sorted[i]).position < (#[trigger] sorted[j]).position by {
        let a = order[i] as int;
        let b = order[j] as int;
        assert(keys[a] == tabs[a].position && keys[b] == tabs[b].position);
        assert(keys[a] < keys[b] || (keys[a] == keys[b] && a < b));
        if a < b {
            assert(tabs[a].position != tabs[b].position);
        }
    }
    assert forall|i: int| 0 <= i < tabs.len() implies tab_there(
        sorted,
        (#[trigger] tabs[i]).position,
    ) by {
        assert(order.contains(i as usize));
        let h = choose|h: int| 0 <= h < order.len() && order[h] == i as usize;
        assert(sorted[h].position == tabs[i].position);
    }
}

/// The tree shows every pane of the list once, in the order of the list, and numbers them from 0
/// on across the tabs: the row of the k-th pane carries k.
pub proof fn law_rows_are_numbered(s: StateV)
    requires
        in_tabs(s.list.selectable, s.list.tabs),
        !s.nav.help_overlay,
        s.nav.triage is None,
        s.nav.search is None,
    ensures
        shown_panes(s.content_rows()) == Seq::new(
            s.list.selectable.len(),
            |k: int| (s.list.selectable[k], k as usize),
        ),
{
    let list = s.list.selectable;
    let tabs = sorted_tabs(s.list.tabs);
    lemma_sorted_tabs(s.list.tabs);
    if tabs.len() == 0 {
        if list.len() > 0 {
            assert(list[0] == list[0]);
            let i = choose|i: int|
                0 <= i < s.list.tabs.len() && (#[trigger] s.list.tabs[i]).position
                    == list[0].tab_position;
        }
        assert(s.content_rows() =~= Seq::empty());
        assert(shown_panes(s.content_rows()) =~= Seq::new(
            list.len(),
            |k: int| (list[k], k as usize),
        ));
    } else {
        assert forall|a: int| 0 <= a < list.len() implies tab_there(
            tabs,
            (#[trigger] list[a]).tab_position,
        ) by {
            let i = choose|i: int|
                0 <= i < s.list.tabs.len() && (#[trigger] s.list.tabs[i]).position
                    == list[a].tab_position;
            assert(tab_there(tabs, s.list.tabs[i].position));
        }
        lemma_tree_panes(s, tabs);
        let p = tabs.last().position;
        lemma_ahead(list, p + 1);
        assert(ahead(list, p + 1) == list.len()) by {
            if ahead(list, p + 1) < list.len() {
                let a = ahead(list, p + 1) as int;
                assert(list[a].tab_position > p);
                assert(tab_there(tabs, list[a].tab_position));
                let i = choose|i: int|
                    0 <= i < tabs.len() && (#[trigger] tabs[i]).position == list[a].tab_position;
                assert(tabs[tabs.len() - 1] == tabs.last());
                if i < tabs.len() - 1 {
                    assert(tabs[i].position < tabs[tabs.len() - 1].position);
                }
            }
        }
    }
}

proof fn lemma_shown_at(rows: Seq<RowV>, r: int) -> (k: int)
    requires
        0 <= r < rows.len(),
        rows[r] is Pane,
    ensures
        0 <= k < shown_panes(rows).len(),
        k == shown_panes(rows.take(r)).len(),
        rows[r] matches RowV::Pane(e, index, _) && shown_panes(rows)[k] == (e, index),
{
    let head = rows.take(r);
    let tail = rows.skip(r + 1);
    assert(rows =~= head.push(rows[r]) + tail);
    lemma_shown_panes_add(head.push(rows[r]), tail);
    assert(head.push(rows[r]).drop_last() =~= head);
    shown_panes(head).len() as int
}

/// A row of the tree that stands for a pane carries the number of that pane in the list. The
/// selected pane's row is lit, and no other pane's.
pub proof fn law_lit_row_is_the_selected(s: StateV, r: int)
    requires
        in_tabs(s.list.selectable, s.list.tabs),
        !s.nav.help_overlay,
        s.nav.triage is None,
        s.nav.search is None,
        0 <= r < s.content_rows().len(),
        s.content_rows()[r] is Pane,
    ensures
        s.content_rows()[r] matches RowV::Pane(e, index, _) && index < s.list.selectable.len()
            && s.list.selectable[index as int] == e && (s.lit(s.content_rows()[r]) <==> index
            == s.list.selected),
{
    law_rows_are_numbered(s);
    let k = lemma_shown_at(s.content_rows(), r);
}

/// At most one pane is lit.
pub proof fn law_one_pane_is_lit(s: StateV, r: int, q: int)
    requires
        in_tabs(s.list.selectable, s.list.tabs),
        !s.nav.help_overlay,
        s.nav.triage is None,
        s.nav.search is None,
        0 <= r < q < s.content_rows().len(),
        s.content_rows()[r] is Pane,
        s.content_rows()[q] is Pane,
    ensures
        !(s.lit(s.content_rows()[r]) && s.lit(s.content_rows()[q])),
{
    let rows = s.content_rows();
    law_rows_are_numbered(s);
    let k = lemma_shown_at(rows, r);
    let h = lemma_shown_at(rows, q);
    assert(rows.take(q).take(r) =~= rows.take(r));
    let j = lemma_shown_at(rows.take(q), r);
    assert(k < h);
}

/// The selected pane is lit.
pub proof fn law_selected_pane_is_lit(s: StateV)
    requires
        in_tabs(s.list.selectable, s.list.tabs),
        !s.nav.help_overlay,
        s.nav.triage is None,
        s.nav.search is None,
        s.list.selected < s.list.selectable.len(),
    ensures
        exists|r: int|
            0 <= r < s.content_rows().len() && (#[trigger] s.content_rows()[r]) is Pane && s.lit(
                s.content_rows()[r],
            ),
{
    law_rows_are_numbered(s);
    let r = lemma_row_of(s.content_rows(), s.list.selected as int);
    assert(s.lit(s.content_rows()[r]));
}

proof fn lemma_row_of(rows: Seq<RowV>, k: int) -> (r: int)
    requires
        0 <= k < shown_panes(rows).len(),
    ensures
        0 <= r < rows.len(),
        rows[r] matches RowV::Pane(e, index, _) && shown_panes(rows)[k] == (e, index),
    decreases rows.len(),
{
    let front = rows.drop_last();
    if k < shown_panes(front).len() {
        let r = lemma_row_of(front, k);
        assert(front[r] == rows[r]);
        r
    } else {
        rows.len() - 1
    }
}

/// A report of the panes makes a list that goes by tabs, as long as the tabs are known.
pub proof fn law_reports_make_lists_by_tab(s: StateV, m: PaneManifestV)
    requires
        s.list.panes == Some(m),
        reported_once(m),
        m.tabs.len() <= usize::MAX,
        s.list.tabs.len() <= usize::MAX,
        listed(m).len() <= usize::MAX,
        forall|i: int, j: int|
            0 <= i < j < s.list.tabs.len() ==> (#[trigger] s.list.tabs[i]).position != (
            #[trigger] s.list.tabs[j]).position,
        forall|k: int|
            0 <= k < m.tabs.len() ==> exists|i: int|
                0 <= i < s.list.tabs.len() && (#[trigger] s.list.tabs[i]).position == (
                #[trigger] m.tabs[k]).position,
    ensures
        in_tabs(s.rebuild_selectable().list.selectable, s.rebuild_selectable().list.tabs),
{
    let t = s.rebuild_selectable();
    let list = t.list.selectable;
    law_list_holds_terminals(s, m);
    assert forall|a: int, b: int| 0 <= a < b < list.len() implies (
    #[trigger] list[a]).tab_position <= (#[trigger] list[b]).tab_position by {
        law_list_is_in_order(s, m, a, b);
    }
    assert forall|a: int| 0 <= a < list.len() implies exists|i: int|
        0 <= i < t.list.tabs.len() && (#[trigger] t.list.tabs[i]).position == (
        #[trigger] list[a]).tab_position by {
        let k = choose|k: int| 0 <= k < m.tabs.len() && from_tab(list[a], #[trigger] m.tabs[k]);
        let i = choose|i: int|
            0 <= i < s.list.tabs.len() && (#[trigger] s.list.tabs[i]).position
                == m.tabs[k].position;
        assert(t.list.tabs[i].position == list[a].tab_position);
    }
}

// --- the rows of a search ---

/// The panes that the rows show.
pub open spec fn shown_entries(rows: Seq<RowV>) -> Seq<SelectableV>
    decreases rows.len(),
{
    if rows.len() == 0 {
        Seq::empty()
    } else {
        let front = shown_entries(rows.drop_last());
        match rows.last() {
            RowV::Pane(e, _, _) => front.push(e),
            _ => front,
        }
    }
}

proof fn lemma_shown_entries_add(a: Seq<RowV>, b: Seq<RowV>)
    ensures
        shown_entries(a + b) == shown_entries(a) + shown_entries(b),
    decreases b.len(),
{
    if b.len() == 0 {
        assert(a + b =~= a);
        assert(shown_entries(a) + shown_entries(b) =~= shown_entries(a));
    } else {
        lemma_shown_entries_add(a, b.drop_last());
        assert((a + b).drop_last() =~= a + b.drop_last());
        assert((a + b).last() == b.last());
        assert(shown_entries(a + b) =~= shown_entries(a) + shown_entries(b));
    }
}

proof fn lemma_tab_entries(s: StateV, position: usize, list: Seq<SelectableV>, base: nat)
    requires
        s.nav.search is Some,
    ensures
        shown_entries(s.tab_rows(position, list, base)) == list.filter(
            |e: SelectableV|
                e.tab_position == position && s.nav.search->0.hits.contains_key(e.pane_id),
        ),
    decreases list.len(),
{
    reveal(Seq::filter);
    let f = |e: SelectableV|
        e.tab_position == position && s.nav.search->0.hits.contains_key(e.pane_id);
    if list.len() > 0 {
        let front = list.drop_last();
        let e = list.last();
        lemma_tab_entries(s, position, front, base);
        if e.tab_position == position {
            let index = capped(base + count_in(front, position));
            let own = s.entry_rows(e, index);
            lemma_shown_entries_add(s.tab_rows(position, front, base), own);
            reveal_with_fuel(shown_entries, 3);
            if f(e) {
                let pane = seq![RowV::Pane(e, index as usize, s.hit_of(e.pane_id))];
                assert(pane.drop_last() =~= Seq::empty());
                match s.cwd_row_of(e) {
                    Some(cwd) => {
                        let row = RowV::Cwd(e, index as usize, cwd, s.shown_cwd_hit(e.pane_id));
                        assert(own =~= pane.push(row));
                        assert(own.drop_last() =~= pane);
                        assert(own.last() == row);
                    },
                    None => {
                        assert(own =~= pane);
                    },
                }
                assert(shown_entries(own) =~= seq![e]);
                assert(shown_entries(s.tab_rows(position, list, base)) =~= front.filter(f).push(e));
            } else {
                assert(own =~= Seq::empty());
                assert(shown_entries(own) =~= Seq::empty());
                assert(shown_entries(s.tab_rows(position, list, base)) =~= front.filter(f));
            }
        }
    }
}

proof fn lemma_filter_split(
    list: Seq<SelectableV>,
    hits: spec_fn(SelectableV) -> bool,
    position: int,
)
    requires
        by_tab(list),
    ensures
        list.filter(|e: SelectableV| e.tab_position < position && hits(e)) + list.filter(
            |e: SelectableV| e.tab_position == position && hits(e),
        ) == list.filter(|e: SelectableV| e.tab_position < position + 1 && hits(e)),
    decreases list.len(),
{
    reveal(Seq::filter);
    let low = |e: SelectableV| e.tab_position < position && hits(e);
    let here = |e: SelectableV| e.tab_position == position && hits(e);
    let both = |e: SelectableV| e.tab_position < position + 1 && hits(e);
    if list.len() > 0 {
        let front = list.drop_last();
        let last = list.len() - 1;
        let e = list.last();
        assert forall|a: int, b: int| 0 <= a < b < front.len() implies (
        #[trigger] front[a]).tab_position <= (#[trigger] front[b]).tab_position by {
            assert(front[a] == list[a] && front[b] == list[b]);
        }
        lemma_filter_split(front, hits, position);
        if e.tab_position < position {
            assert forall|a: int| 0 <= a < front.len() implies !here(#[trigger] front[a]) by {
                assert(list[a].tab_position <= list[last].tab_position);
                assert(front[a] == list[a]);
            }
            lemma_nothing_left(front, here);
            assert(list.filter(here) =~= Seq::empty());
            assert(list.filter(low) + list.filter(here) =~= list.filter(low));
            assert(front.filter(low) + front.filter(here) =~= front.filter(low));
        } else {
            assert(list.filter(low) =~= front.filter(low));
            if here(e) {
                assert(list.filter(low) + list.filter(here) =~= (front.filter(low)
                    + front.filter(here)).push(e));
            }
        }
    } else {
        assert(list.filter(low) + list.filter(here) =~= list.filter(both));
    }
}

proof fn lemma_nothing_left(list: Seq<SelectableV>, p: spec_fn(SelectableV) -> bool)
    requires
        forall|a: int| 0 <= a < list.len() ==> !p(#[trigger] list[a]),
    ensures
        list.filter(p) == Seq::<SelectableV>::empty(),
    decreases list.len(),
{
    reveal(Seq::filter);
    if list.len() > 0 {
        let front = list.drop_last();
        assert(!p(list[list.len() - 1]));
        assert forall|a: int| 0 <= a < front.len() implies !p(#[trigger] front[a]) by {
            assert(front[a] == list[a]);
        }
        lemma_nothing_left(front, p);
    }
}

proof fn lemma_same_filter(
    list: Seq<SelectableV>,
    p: spec_fn(SelectableV) -> bool,
    q: spec_fn(SelectableV) -> bool,
)
    requires
        forall|a: int| 0 <= a < list.len() ==> p(#[trigger] list[a]) == q(list[a]),
    ensures
        list.filter(p) == list.filter(q),
    decreases list.len(),
{
    reveal(Seq::filter);
    if list.len() > 0 {
        let front = list.drop_last();
        assert(p(list[list.len() - 1]) == q(list[list.len() - 1]));
        assert forall|a: int| 0 <= a < front.len() implies p(#[trigger] front[a]) == q(
            front[a],
        ) by {
            assert(front[a] == list[a]);
        }
        lemma_same_filter(front, p, q);
    }
}

#[verifier::rlimit(40)]
proof fn lemma_tree_entries(s: StateV, tabs: Seq<TabInfoV>)
    requires
        s.nav.search is Some,
        by_tab(s.list.selectable),
        rising(tabs),
        tabs.len() > 0,
        forall|a: int|
            0 <= a < s.list.selectable.len() && (#[trigger] s.list.selectable[a]).tab_position
                <= tabs.last().position ==> tab_there(tabs, s.list.selectable[a].tab_position),
    ensures
        shown_entries(s.tree_rows(tabs)) == s.list.selectable.filter(
            |e: SelectableV|
                e.tab_position < tabs.last().position + 1 && s.nav.search->0.hits.contains_key(
                    e.pane_id,
                ),
        ),
    decreases tabs.len(),
{
    let list = s.list.selectable;
    let hits = |e: SelectableV| s.nav.search->0.hits.contains_key(e.pane_id);
    let front = tabs.drop_last();
    let last = tabs.len() - 1;
    let p = tabs.last().position;
    let low = |e: SelectableV| e.tab_position < p && hits(e);
    let here = |e: SelectableV| e.tab_position == p && hits(e);
    let both = |e: SelectableV| e.tab_position < p + 1 && hits(e);
    assert(tabs[last] == tabs.last());
    let head = s.tree_rows(front);
    if front.len() > 0 {
        assert forall|i: int, j: int| 0 <= i < j < front.len() implies (
        #[trigger] front[i]).position < (#[trigger] front[j]).position by {
            assert(front[i] == tabs[i] && front[j] == tabs[j]);
        }
        let q = front.last().position;
        assert(front[last - 1] == tabs[last - 1]);
        assert(q < p);
        assert forall|a: int|
            0 <= a < list.len() && (#[trigger] list[a]).tab_position <= q implies tab_there(
            front,
            list[a].tab_position,
        ) by {
            assert(tab_there(tabs, list[a].tab_position));
            let i = choose|i: int|
                0 <= i < tabs.len() && (#[trigger] tabs[i]).position == list[a].tab_position;
            assert(front[i] == tabs[i]);
        }
        lemma_tree_entries(s, front);
        let seen = |e: SelectableV|
            e.tab_position < front.last().position + 1 && s.nav.search->0.hits.contains_key(
                e.pane_id,
            );
        assert forall|a: int| 0 <= a < list.len() implies seen(#[trigger] list[a]) == low(
            list[a],
        ) by {
            if list[a].tab_position < p {
                assert(tab_there(tabs, list[a].tab_position));
                let i = choose|i: int|
                    0 <= i < tabs.len() && (#[trigger] tabs[i]).position == list[a].tab_position;
                if i < last - 1 {
                    assert(tabs[i].position < tabs[last - 1].position);
                }
            }
        }
        lemma_same_filter(list, seen, low);
    } else {
        assert forall|a: int| 0 <= a < list.len() implies !low(#[trigger] list[a]) by {
            if list[a].tab_position < p {
                assert(tab_there(tabs, list[a].tab_position));
            }
        }
        lemma_nothing_left(list, low);
        assert(shown_entries(head) =~= list.filter(low));
    }
    assert(shown_entries(head) == list.filter(low));
    lemma_filter_split(list, hits, p as int);
    assert(list.filter(|e: SelectableV| e.tab_position < p as int && hits(e)) == list.filter(
        low,
    )) by {
        lemma_same_filter(list, |e: SelectableV| e.tab_position < p as int && hits(e), low);
    }
    assert(list.filter(|e: SelectableV| e.tab_position == p as int && hits(e)) == list.filter(
        here,
    )) by {
        lemma_same_filter(list, |e: SelectableV| e.tab_position == p as int && hits(e), here);
    }
    assert(list.filter(|e: SelectableV| e.tab_position < p as int + 1 && hits(e)) == list.filter(
        both,
    )) by {
        lemma_same_filter(list, |e: SelectableV| e.tab_position < p as int + 1 && hits(e), both);
    }
    let want = |e: SelectableV|
        e.tab_position < tabs.last().position + 1 && s.nav.search->0.hits.contains_key(e.pane_id);
    lemma_same_filter(list, both, want);
    if s.tab_hidden(p) {
        assert forall|a: int| 0 <= a < list.len() implies !here(#[trigger] list[a]) by {}
        lemma_nothing_left(list, here);
        assert(list.filter(low) + list.filter(here) =~= list.filter(low));
    } else {
        let base = s.tree_count(front);
        let body = s.tab_rows(p, list, base);
        let tab = RowV::Tab(tabs.last());
        lemma_tab_entries(s, p, list, base);
        lemma_same_filter(
            list,
            |e: SelectableV|
                e.tab_position == p && s.nav.search->0.hits.contains_key(e.pane_id),
            here,
        );
        lemma_shown_entries_add(head.push(tab), body);
        assert(head.push(tab).drop_last() =~= head);
    }
}

/// A search shows the panes with a hit, all of them, once each, and in the order of the list.
pub proof fn law_search_shows_the_hits(s: StateV)
    requires
        in_tabs(s.list.selectable, s.list.tabs),
        !s.nav.help_overlay,
        s.nav.triage is None,
        s.nav.search is Some,
        !s.nav.search->0.hits.dom().is_empty(),
    ensures
        shown_entries(s.content_rows()) == s.list.selectable.filter(
            |e: SelectableV| s.nav.search->0.hits.contains_key(e.pane_id),
        ),
{
    let list = s.list.selectable;
    let tabs = sorted_tabs(s.list.tabs);
    let hits = |e: SelectableV| s.nav.search->0.hits.contains_key(e.pane_id);
    lemma_sorted_tabs(s.list.tabs);
    assert forall|a: int| 0 <= a < list.len() implies tab_there(
        tabs,
        (#[trigger] list[a]).tab_position,
    ) by {
        let i = choose|i: int|
            0 <= i < s.list.tabs.len() && (#[trigger] s.list.tabs[i]).position
                == list[a].tab_position;
        assert(tab_there(tabs, s.list.tabs[i].position));
    }
    if tabs.len() == 0 {
        if list.len() > 0 {
            assert(tab_there(tabs, list[0].tab_position));
        }
        reveal(Seq::filter);
        assert(s.content_rows() =~= Seq::empty());
        assert(shown_entries(s.content_rows()) =~= list.filter(hits));
    } else {
        lemma_tree_entries(s, tabs);
        let last = tabs.len() - 1;
        let all = |e: SelectableV|
            e.tab_position < tabs.last().position + 1 && s.nav.search->0.hits.contains_key(
                e.pane_id,
            );
        assert forall|a: int| 0 <= a < list.len() implies all(#[trigger] list[a]) == hits(
            list[a],
        ) by {
            assert(tab_there(tabs, list[a].tab_position));
            let i = choose|i: int|
                0 <= i < tabs.len() && (#[trigger] tabs[i]).position == list[a].tab_position;
            assert(tabs[last] == tabs.last());
            if i < last {
                assert(tabs[i].position < tabs[last].position);
            }
        }
        lemma_same_filter(list, all, hits);
    }
}

// --- headings and working directories ---

/// The rows of panes belong to the tab in the heading above them.
pub open spec fn under_heading(rows: Seq<RowV>, r: int) -> bool {
    exists|h: int| #[trigger] is_heading_of(rows, h, r)
}

/// The row `h` is the last heading above row `r`, and that of its tab.
pub open spec fn is_heading_of(rows: Seq<RowV>, h: int, r: int) -> bool {
    0 <= h < r && (forall|i: int| h < i < r ==> !((#[trigger] rows[i]) is Tab)) && match (
        rows[h],
        rows[r],
    ) {
        (RowV::Tab(tab), RowV::Pane(e, _, _)) => e.tab_position == tab.position,
        (RowV::Tab(tab), RowV::Cwd(e, _, _, _)) => e.tab_position == tab.position,
        _ => false,
    }
}

proof fn lemma_tab_rows_kinds(s: StateV, position: usize, list: Seq<SelectableV>, base: nat)
    ensures
        forall|r: int|
            0 <= r < s.tab_rows(position, list, base).len() ==> match #[trigger] s.tab_rows(
                position,
                list,
                base,
            )[r] {
                RowV::Pane(e, _, _) => e.tab_position == position,
                RowV::Cwd(e, index, cwd, _) => e.tab_position == position && r > 0 && (
                s.tab_rows(position, list, base)[r - 1] matches RowV::Pane(f, k, _) && f == e && k
                    == index),
                _ => false,
            },
    decreases list.len(),
{
    if list.len() > 0 {
        let front = list.drop_last();
        lemma_tab_rows_kinds(s, position, front, base);
        let rest = s.tab_rows(position, front, base);
        let rows = s.tab_rows(position, list, base);
        if list.last().tab_position == position {
            let own = s.entry_rows(list.last(), capped(base + count_in(front, position)));
            assert(rows == rest + own);
            assert forall|r: int| 0 <= r < rows.len() implies match #[trigger] rows[r] {
                RowV::Pane(e, _, _) => e.tab_position == position,
                RowV::Cwd(e, index, cwd, _) => e.tab_position == position && r > 0 && (rows[r - 1]
                    matches RowV::Pane(f, k, _) && f == e && k == index),
                _ => false,
            } by {
                if r < rest.len() {
                    assert(rows[r] == rest[r]);
                    if r > 0 {
                        assert(rows[r - 1] == rest[r - 1]);
                    }
                } else {
                    assert(rows[r] == own[r - rest.len()]);
                    if r > rest.len() {
                        assert(rows[r - 1] == own[r - 1 - rest.len()]);
                    }
                }
            }
        }
    }
}

/// In the tree every row of a pane stands below the heading of the pane's tab, with no other
/// heading between. A working directory stands right below the pane it belongs to.
pub proof fn law_panes_under_their_tab(s: StateV, tabs: Seq<TabInfoV>, r: int)
    requires
        0 <= r < s.tree_rows(tabs).len(),
    ensures
        s.tree_rows(tabs)[r] is Tab || under_heading(s.tree_rows(tabs), r),
        s.tree_rows(tabs)[r] matches RowV::Cwd(e, index, cwd, _) ==> r > 0 && (s.tree_rows(
            tabs,
        )[r - 1] matches RowV::Pane(f, k, _) && f == e && k == index),
    decreases tabs.len(),
{
    let rows = s.tree_rows(tabs);
    let front = s.tree_rows(tabs.drop_last());
    let tab = tabs.last();
    if r < front.len() {
        law_panes_under_their_tab(s, tabs.drop_last(), r);
        assert(forall|i: int| 0 <= i < front.len() ==> #[trigger] rows[i] == front[i]);
        if !(front[r] is Tab) {
            let h = choose|h: int| #[trigger] is_heading_of(front, h, r);
            assert(is_heading_of(rows, h, r));
        }
    } else {
        let base = s.tree_count(tabs.drop_last());
        let body = s.tab_rows(tab.position, s.list.selectable, base);
        lemma_tab_rows_kinds(s, tab.position, s.list.selectable, base);
        let at = front.len() as int;
        assert(rows == front.push(RowV::Tab(tab)) + body);
        assert(rows[at] == RowV::Tab(tab));
        if r > at {
            assert(rows[r] == body[r - at - 1]);
            assert forall|i: int| at < i < r implies !((#[trigger] rows[i]) is Tab) by {
                assert(rows[i] == body[i - at - 1]);
            }
            if r - 1 > at {
                assert(rows[r - 1] == body[r - at - 2]);
            }
            assert(is_heading_of(rows, at, r));
        }
    }
}

} // verus!
