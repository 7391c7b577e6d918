//! The list of panes: which panes it holds, and in which order.

use vstd::prelude::*;

use crate::host::{PaneInfo, PaneInfoV, PaneManifest, PaneManifestV, TabPanes, TabPanesV};
use crate::ids::{group_views, views};
use crate::state::{ListingV, Selectable, SelectableV, State, StateV};
use crate::text::{is_blank, trimmed};
use crate::triage::has_pane;

verus! {

broadcast use group_views;

// --- rows in the order of a key ---

/// Where index `i` goes in an order of indices: behind all whose key is not larger.
pub open spec fn key_slot(keys: Seq<usize>, order: Seq<usize>, i: usize) -> nat
    decreases order.len(),
{
    if order.len() == 0 || keys[i as int] < keys[order[0] as int] {
        0
    } else {
        1 + key_slot(keys, order.drop_first(), i)
    }
}

/// The first `n` indices by their keys, the smallest key first; equal keys keep their order.
pub open spec fn key_order(keys: Seq<usize>, n: nat) -> Seq<usize>
    decreases n,
{
    if n == 0 {
        Seq::empty()
    } else {
        let order = key_order(keys, (n - 1) as nat);
        let i = (n - 1) as usize;
        order.insert(key_slot(keys, order, i) as int, i)
    }
}

proof fn lemma_key_slot_is(keys: Seq<usize>, order: Seq<usize>, i: usize, n: int)
    requires
        0 <= n <= order.len(),
        forall|j: int| 0 <= j < n ==> keys[i as int] >= keys[#[trigger] order[j] as int],
        n < order.len() ==> keys[i as int] < keys[order[n] as int],
    ensures
        key_slot(keys, order, i) == n,
    decreases n,
{
    if n > 0 {
        assert(keys[i as int] >= keys[order[0] as int]);
        let rest = order.drop_first();
        assert forall|j: int| 0 <= j < n - 1 implies keys[i as int]
            >= keys[#[trigger] rest[j] as int] by {
            assert(rest[j] == order[j + 1]);
        }
        lemma_key_slot_is(keys, rest, i, n - 1);
    }
}

proof fn lemma_key_slot(keys: Seq<usize>, order: Seq<usize>, i: usize)
    ensures
        key_slot(keys, order, i) <= order.len(),
        forall|j: int|
            0 <= j < key_slot(keys, order, i) ==> keys[i as int] >= keys[#[trigger] order[j] as int],
        key_slot(keys, order, i) < order.len() ==> keys[i as int] < keys[order[key_slot(
            keys,
            order,
            i,
        ) as int] as int],
    decreases order.len(),
{
    if order.len() > 0 && keys[i as int] >= keys[order[0] as int] {
        let rest = order.drop_first();
        lemma_key_slot(keys, rest, i);
        assert forall|j: int| 0 <= j < key_slot(keys, order, i) implies keys[i as int]
            >= keys[#[trigger] order[j] as int] by {
            if j > 0 {
                assert(order[j] == rest[j - 1]);
            }
        }
    }
}

/// The order holds each index once, by increasing keys, and equal keys keep their order.
pub proof fn law_key_order(keys: Seq<usize>, n: nat)
    requires
        n <= keys.len() <= usize::MAX,
    ensures
        key_order(keys, n).len() == n,
        forall|j: int| 0 <= j < n ==> (#[trigger] key_order(keys, n)[j]) < n,
        forall|i: usize| i < n ==> key_order(keys, n).contains(i),
        forall|j: int, k: int|
            #![trigger key_order(keys, n)[j], key_order(keys, n)[k]]
            0 <= j < k < n ==> {
                let a = key_order(keys, n)[j];
                let b = key_order(keys, n)[k];
                keys[a as int] < keys[b as int] || (keys[a as int] == keys[b as int] && a < b)
            },
    decreases n,
{
    if n > 0 {
        let m = (n - 1) as nat;
        law_key_order(keys, m);
        let front = key_order(keys, m);
        let i = m as usize;
        lemma_key_slot(keys, front, i);
        let at = key_slot(keys, front, i) as int;
        let all = key_order(keys, n);
        assert(all == front.insert(at, i));
        assert forall|j: int| 0 <= j < n implies (#[trigger] all[j]) < n by {
            if j < at {
                assert(all[j] == front[j]);
            } else if j > at {
                assert(all[j] == front[j - 1]);
            }
        }
        assert forall|x: usize| x < n implies all.contains(x) by {
            if x == i {
                assert(all[at] == i);
            } else {
                assert(front.contains(x));
                let j = choose|j: int| 0 <= j < front.len() && front[j] == x;
                if j < at {
                    assert(all[j] == x);
                } else {
                    assert(all[j + 1] == x);
                }
            }
        }
        assert forall|j: int, k: int|
            #![trigger all[j], all[k]]
            0 <= j < k < n implies {
            let a = all[j];
            let b = all[k];
            keys[a as int] < keys[b as int] || (keys[a as int] == keys[b as int] && a < b)
        } by {
            let fj = if j < at {
                j
            } else {
                j - 1
            };
            let fk = if k < at {
                k
            } else {
                k - 1
            };
            if k == at {
                assert(all[j] == front[j]);
            } else if j == at {
                assert(all[k] == front[k - 1]);
                if k - 1 > at {
                    assert(keys[i as int] < keys[front[at] as int]);
                    assert(keys[front[at] as int] <= keys[front[k - 1] as int]);
                }
            } else {
                assert(all[j] == front[fj]);
                assert(all[k] == front[fk]);
            }
        }
    }
}

/// The indices of the keys in their order.
pub fn sort_order(keys: &Vec<usize>) -> (r: Vec<usize>)
    ensures
        r@ == key_order(keys@, keys@.len()),
        forall|j: int| 0 <= j < r@.len() ==> (#[trigger] r@[j]) < keys.len(),
{
    let mut order: Vec<usize> = Vec::new();
    let mut n: usize = 0;
    while n < keys.len()
        invariant
            n <= keys.len(),
            order@ == key_order(keys@, n as nat),
            order.len() == n,
            forall|j: int| 0 <= j < order@.len() ==> (#[trigger] order@[j]) < n,
        decreases keys.len() - n,
    {
        let mut at: usize = 0;
        while at < order.len() && keys[n] >= keys[order[at]]
            invariant
                at <= order.len(),
                n < keys.len(),
                forall|j: int| 0 <= j < order@.len() ==> (#[trigger] order@[j]) < n,
                forall|j: int|
                    0 <= j < at ==> keys@[n as int] >= keys@[#[trigger] order@[j] as int],
            decreases order.len() - at,
        {
            at += 1;
        }
        proof {
            lemma_key_slot_is(keys@, order@, n, at as int);
        }
        let ghost before = order@;
        order.insert(at, n);
        assert forall|j: int| 0 <= j < order@.len() implies (#[trigger] order@[j]) < n + 1 by {
            if j < at {
                assert(order@[j] == before[j]);
            } else if j > at {
                assert(order@[j] == before[j - 1]);
            }
        }
        n += 1;
    }
    order
}

// --- the panes of the list ---

/// The name of a pane; a pane without one goes by its command.
pub open spec fn pane_name(p: PaneInfoV) -> Seq<char> {
    if trimmed(p.title).len() > 0 {
        p.title
    } else {
        match p.terminal_command {
            Some(command) => command,
            None => Seq::empty(),
        }
    }
}

/// The terminal panes of a tab, in the host's order.
pub open spec fn listed_panes(position: usize, panes: Seq<PaneInfoV>) -> Seq<SelectableV>
    decreases panes.len(),
{
    if panes.len() == 0 {
        Seq::empty()
    } else {
        let front = listed_panes(position, panes.drop_last());
        let p = panes.last();
        if p.is_plugin || p.is_suppressed {
            front
        } else {
            front.push(
                SelectableV {
                    tab_position: position,
                    pane_id: p.id,
                    title: pane_name(p),
                    is_floating: p.is_floating,
                },
            )
        }
    }
}

/// The positions of the tabs.
pub open spec fn tab_keys(tabs: Seq<TabPanesV>) -> Seq<usize> {
    tabs.map_values(|t: TabPanesV| t.position)
}

/// The terminal panes of the tabs, taken in this order.
pub open spec fn listed_tabs(tabs: Seq<TabPanesV>, order: Seq<usize>) -> Seq<SelectableV>
    decreases order.len(),
{
    if order.len() == 0 {
        Seq::empty()
    } else {
        let t = tabs[order.last() as int];
        listed_tabs(tabs, order.drop_last()) + listed_panes(t.position, t.panes)
    }
}

/// The terminal panes of all tabs, the tabs by their position.
pub open spec fn listed(m: PaneManifestV) -> Seq<SelectableV> {
    listed_tabs(m.tabs, key_order(tab_keys(m.tabs), m.tabs.len()))
}

impl StateV {
    /// The list is made anew from the panes. The selection stays inside it, the marks of
    /// panes that left it go, and the hits of a search follow.
    pub open spec fn rebuild_selectable(self) -> StateV {
        match self.list.panes {
            None => StateV { list: ListingV { selectable: Seq::empty(), ..self.list }, ..self },
            Some(m) => {
                let selectable = listed(m);
                let selected = if self.list.selected < selectable.len() {
                    self.list.selected
                } else if selectable.len() > 0 {
                    (selectable.len() - 1) as usize
                } else {
                    0
                };
                StateV {
                    list: ListingV { selectable, selected, ..self.list },
                    ..self
                }.prune_marks().refilter()
            },
        }
    }
}

/// The name of a pane; a pane without one goes by its command.
pub fn fallback_title(pane: &PaneInfo) -> (r: String)
    ensures
        r@ == pane_name(pane@),
{
    if !is_blank(pane.title.as_str()) {
        return pane.title.clone();
    }
    match &pane.terminal_command {
        Some(command) => command.clone(),
        None => String::new(),
    }
}

fn push_panes(list: &mut Vec<Selectable>, tab: &TabPanes)
    ensures
        views(final(list)@) == views(old(list)@) + listed_panes(tab.position, tab@.panes),
{
    let ghost before = views(list@);
    let ghost panes = tab@.panes;
    let mut i: usize = 0;
    assert(panes.take(0) =~= Seq::empty());
    assert(before + listed_panes(tab.position, panes.take(0)) =~= before);
    while i < tab.panes.len()
        invariant
            i <= tab.panes.len(),
            panes == tab@.panes,
            views(list@) == before + listed_panes(tab.position, panes.take(i as int)),
        decreases tab.panes.len() - i,
    {
        let pane = &tab.panes[i];
        let ghost upto = panes.take(i + 1);
        assert(upto.drop_last() =~= panes.take(i as int));
        assert(upto.last() == pane@);
        if !pane.is_plugin && !pane.is_suppressed {
            list.push(
                Selectable {
                    tab_position: tab.position,
                    pane_id: pane.id,
                    title: fallback_title(pane),
                    is_floating: pane.is_floating,
                },
            );
        }
        assert(views(list@) =~= before + listed_panes(tab.position, upto));
        i += 1;
    }
    assert(panes.take(i as int) =~= panes);
}

impl PaneManifest {
    /// The terminal panes of all tabs, the tabs by their position.
    pub fn terminal_list(&self) -> (r: Vec<Selectable>)
        ensures
            views(r@) == listed(self@),
    {
        let ghost tabs = self@.tabs;
        let mut keys: Vec<usize> = Vec::new();
        let mut i: usize = 0;
        while i < self.tabs.len()
            invariant
                i <= self.tabs.len(),
                tabs == self@.tabs,
                keys@ =~= tab_keys(tabs).take(i as int),
            decreases self.tabs.len() - i,
        {
            keys.push(self.tabs[i].position);
            i += 1;
        }
        assert(keys@ =~= tab_keys(tabs));
        let order = sort_order(&keys);
        let mut list: Vec<Selectable> = Vec::new();
        let mut k: usize = 0;
        assert(order@.take(0) =~= Seq::empty());
        while k < order.len()
            invariant
                k <= order.len(),
                tabs == self@.tabs,
                forall|j: int| 0 <= j < order@.len() ==> (#[trigger] order@[j]) < tabs.len(),
                views(list@) == listed_tabs(tabs, order@.take(k as int)),
            decreases order.len() - k,
        {
            let ghost upto = order@.take(k + 1);
            assert(upto.drop_last() =~= order@.take(k as int));
            assert(upto.last() == order@[k as int]);
            let tab = &self.tabs[order[k]];
            assert(tab@ == tabs[order@[k as int] as int]);
            push_panes(&mut list, tab);
            k += 1;
        }
        assert(order@.take(k as int) =~= order@);
        list
    }
}

impl State {
    /// Makes the list anew from the panes.
    pub fn rebuild_selectable(&mut self)
        ensures
            final(self)@ == old(self)@.rebuild_selectable(),
    {
        let list = match &self.list.panes {
            Some(manifest) => manifest.terminal_list(),
            None => {
                self.list.selectable = Vec::new();
                return ;
            },
        };
        let len = list.len();
        self.list.selectable = list;
        if self.list.selected >= len {
            self.list.selected = if len > 0 {
                len - 1
            } else {
                0
            };
        }
        self.prune_marks();
        self.refilter();
    }
}

/// After the list was made anew, the selection is on a row of it if it has any, and every
/// mark is on one of its panes.
pub proof fn law_selection_in_list(s: StateV)
    requires
        s.list.panes is Some,
    ensures
        s.rebuild_selectable().list.selectable == listed(s.list.panes->0),
        listed(s.list.panes->0).len() > 0 ==> s.rebuild_selectable().list.selected < listed(
            s.list.panes->0,
        ).len(),
        forall|id: u32| #[trigger]
            s.rebuild_selectable().list.marked.contains(id) ==> s.list.marked.contains(id)
                && has_pane(listed(s.list.panes->0), id),
{
}

} // verus!
