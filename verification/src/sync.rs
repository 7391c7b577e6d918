//! Keeping the instances of one session in step.
//!
//! Messages go to instances by their plugin id, never by location: a message to a
//! location would start a new instance.

use std::collections::BTreeSet;

use vstd::prelude::*;

use crate::host::{HostCall, HostCallV, PaneInfoV, PaneManifest, Sender};
use crate::ids::{
    ascending, group_views, increasing, lemma_ascending_of, opt_view, set_items, views,
};
use crate::mark::{id_text, spell_ids};
use crate::state::{InstanceV, SettingsV, State, StateV};
use crate::text::{
    decimal, digits, is_text, lemma_parsed_digits, lemma_trimmed_digits, parse_u32, parsed, same,
    trim, trimmed,
};
use crate::triage::{has_pane, lemma_place_of};
use crate::width_sync::WIDTH_REQUEST;
use crate::wire::{
    COMMAND_STATE_PIPE, MARK_PIPE, READ_CLEAR_PIPE, SELECTION_PIPE, SYNC_STATE_PIPE,
    TOGGLE_CWD_PIPE, WIDTH_PIPE,
};

verus! {

broadcast use group_views;

/// The same message to each of the instances, in their order.
pub open spec fn messages(ids: Seq<u32>, pipe: Seq<char>, payload: Seq<char>) -> Seq<HostCallV> {
    ids.map_values(|id: u32| HostCallV::PipeMessageToPlugin(pipe, id, payload))
}

impl StateV {
    /// One more request to the host.
    pub open spec fn asks(self, call: HostCallV) -> StateV {
        StateV { calls: self.calls.push(call), ..self }
    }

    /// A message to one instance.
    pub open spec fn sends(self, id: u32, pipe: Seq<char>, payload: Seq<char>) -> StateV {
        self.asks(HostCallV::PipeMessageToPlugin(pipe, id, payload))
    }

    /// A message to all siblings.
    pub open spec fn broadcasts(self, pipe: Seq<char>, payload: Seq<char>) -> StateV {
        StateV {
            calls: self.calls + messages(ascending(self.me.known_siblings), pipe, payload),
            ..self
        }
    }

    /// The pane of the selected row.
    pub open spec fn selected_pane(self) -> Option<u32> {
        if self.list.selected < self.list.selectable.len() {
            Some(self.list.selectable[self.list.selected as int].pane_id)
        } else {
            None
        }
    }

    /// The siblings learn which panes were read.
    pub open spec fn broadcasts_reads(self, ids: Seq<u32>) -> StateV {
        if ids.len() == 0 {
            self
        } else {
            self.broadcasts(READ_CLEAR_PIPE@, id_text(ids))
        }
    }

    /// The siblings learn which pane is selected.
    pub open spec fn broadcasts_selection(self) -> StateV {
        match self.selected_pane() {
            Some(id) => self.broadcasts(SELECTION_PIPE@, digits(id as nat)),
            None => self,
        }
    }
}

impl State {
    pub fn ask(&mut self, call: HostCall)
        ensures
            final(self)@ == old(self)@.asks(call@),
    {
        self.calls.push(call);
    }

    pub fn send_to_plugin(&mut self, plugin_id: u32, pipe: &'static str, payload: String)
        ensures
            final(self)@ == old(self)@.sends(plugin_id, pipe@, payload@),
    {
        self.ask(HostCall::PipeMessageToPlugin(pipe, plugin_id, payload));
    }

    /// Sends the payload to every known sibling.
    pub fn broadcast_to_siblings(&mut self, pipe: &'static str, payload: &str)
        ensures
            final(self)@ == old(self)@.broadcasts(pipe@, payload@),
    {
        let siblings = set_items(&self.me.known_siblings);
        let ghost before = self@;
        let mut i: usize = 0;
        assert(siblings@.take(0) =~= Seq::empty());
        assert(messages(siblings@.take(0), pipe@, payload@) =~= Seq::empty());
        assert(self@.calls =~= before.calls + messages(siblings@.take(0), pipe@, payload@));
        while i < siblings.len()
            invariant
                i <= siblings.len(),
                self@ == (StateV {
                    calls: before.calls + messages(siblings@.take(i as int), pipe@, payload@),
                    ..before
                }),
            decreases siblings.len() - i,
        {
            let ghost all = siblings@.take(i + 1);
            self.send_to_plugin(siblings[i], pipe, payload.to_owned());
            assert(all =~= siblings@.take(i as int).push(siblings@[i as int]));
            assert(messages(all, pipe@, payload@) =~= messages(
                siblings@.take(i as int),
                pipe@,
                payload@,
            ).push(HostCallV::PipeMessageToPlugin(pipe@, siblings@[i as int], payload@)));
            assert(self@.calls =~= before.calls + messages(all, pipe@, payload@));
            i += 1;
        }
        assert(siblings@.take(i as int) =~= siblings@);
    }

    pub fn selected_pane_id(&self) -> (r: Option<u32>)
        ensures
            r == self@.selected_pane(),
    {
        if self.list.selected < self.list.selectable.len() {
            Some(self.list.selectable[self.list.selected].pane_id)
        } else {
            None
        }
    }

    pub fn broadcast_read_clears(&mut self, ids: &Vec<u32>)
        ensures
            final(self)@ == old(self)@.broadcasts_reads(ids@),
    {
        if ids.len() == 0 {
            return ;
        }
        let payload = spell_ids(ids);
        self.broadcast_to_siblings(READ_CLEAR_PIPE, payload.as_str());
    }

    pub fn broadcast_selection(&mut self)
        ensures
            final(self)@ == old(self)@.broadcasts_selection(),
    {
        if let Some(id) = self.selected_pane_id() {
            let payload = decimal(id as u128);
            self.broadcast_to_siblings(SELECTION_PIPE, payload.as_str());
        }
    }
}

/// The question for the agents that a sibling knows.
pub const STATE_REQUEST: &'static str = "?";

/// A yes or no as a word.
pub open spec fn word(b: bool) -> Seq<char> {
    if b {
        "true"@
    } else {
        "false"@
    }
}

/// The plugin location of the first pane that is this plugin.
pub open spec fn own_url(panes: Seq<PaneInfoV>, own: u32) -> Option<Seq<char>>
    decreases panes.len(),
{
    if panes.len() == 0 {
        None
    } else if panes[0].is_plugin && panes[0].id == own {
        panes[0].plugin_url
    } else {
        own_url(panes.drop_first(), own)
    }
}

/// The other instances of the plugin at this location.
pub open spec fn siblings_in(panes: Seq<PaneInfoV>, own: u32, url: Seq<char>) -> Set<u32>
    decreases panes.len(),
{
    if panes.len() == 0 {
        Set::empty()
    } else {
        let front = siblings_in(panes.drop_last(), own, url);
        let p = panes.last();
        if p.is_plugin && p.id != own && p.plugin_url == Some(url) {
            front.insert(p.id)
        } else {
            front
        }
    }
}

impl StateV {
    pub open spec fn with_me(self, me: InstanceV) -> StateV {
        StateV { me, ..self }
    }

    pub open spec fn with_show_cwd(self, show_cwd: bool) -> StateV {
        StateV { config: SettingsV { show_cwd, ..self.config }, ..self }
    }

    /// The cwd rows: without a word they flip, with one they are set. Anything else changes
    /// nothing.
    pub open spec fn toggle_cwd(self, payload: Option<Seq<char>>) -> StateV {
        match payload {
            None => self.with_show_cwd(!self.config.show_cwd),
            Some(raw) => if trimmed(raw).len() == 0 {
                self.with_show_cwd(!self.config.show_cwd)
            } else if trimmed(raw) == "true"@ {
                self.with_show_cwd(true)
            } else if trimmed(raw) == "false"@ {
                self.with_show_cwd(false)
            } else {
                self
            },
        }
    }

    /// A sibling moved the selection.
    pub open spec fn selection_message(self, payload: Option<Seq<char>>) -> StateV {
        match payload {
            None => self,
            Some(raw) => match parsed(trimmed(raw), u32::MAX as nat) {
                Some(id) => self.select(id as u32),
                None => self,
            },
        }
    }

    pub open spec fn push_state_to(self, plugin_id: u32) -> StateV {
        if self.status.agents.dom().is_empty() {
            self
        } else {
            self.sends(plugin_id, SYNC_STATE_PIPE@, self.state_dump())
        }
    }

    /// A message about the agents: a question, which is answered, or the agents.
    pub open spec fn sync_message(self, payload: Option<Seq<char>>, sender: Sender) -> (
        StateV,
        bool,
    ) {
        match payload {
            None => (self, false),
            Some(raw) => if trimmed(raw) == STATE_REQUEST@ {
                match sender {
                    Sender::Plugin(asker) => (self.push_state_to(asker), false),
                    _ => (self, false),
                }
            } else {
                self.apply_state_dump(raw)
            },
        }
    }

    /// Where this plugin was loaded from: by the list of panes, or else by the host's answer.
    pub open spec fn learn_own_plugin_url(self, answer: Option<Seq<char>>) -> StateV {
        if self.me.own_plugin_url is Some || self.me.own_plugin_id is None {
            self
        } else {
            let own = self.me.own_plugin_id->0;
            let listed = match self.list.panes {
                Some(m) => own_url(m.flat(), own),
                None => None,
            };
            self.with_me(
                InstanceV {
                    own_plugin_url: if listed is Some {
                        listed
                    } else {
                        answer
                    },
                    ..self.me
                },
            )
        }
    }

    /// A newcomer learns everything that it cannot see for itself.
    pub open spec fn push_all_to(self, id: u32) -> StateV {
        let a = self.sends(id, TOGGLE_CWD_PIPE@, word(self.config.show_cwd)).push_width_to(id);
        let b = if self.list.marked.is_empty() {
            a
        } else {
            a.sends(id, MARK_PIPE@, self.mark_text())
        };
        let c = b.push_state_to(id);
        if self.status.commands.dom().is_empty() {
            c
        } else {
            c.sends(id, COMMAND_STATE_PIPE@, self.status.command_dump())
        }
    }

    pub open spec fn push_all(self, ids: Seq<u32>) -> StateV
        decreases ids.len(),
    {
        if ids.len() == 0 {
            self
        } else {
            self.push_all(ids.drop_last()).push_all_to(ids.last())
        }
    }

    /// What this instance does not know itself it asks the siblings for: the width if it has
    /// none, and once the agents.
    pub open spec fn ask_siblings(self) -> StateV {
        let a = if self.width.width_target is None {
            self.broadcasts(WIDTH_PIPE@, WIDTH_REQUEST@)
        } else {
            self
        };
        if a.me.state_requested {
            a
        } else {
            a.with_me(InstanceV { state_requested: true, ..a.me }).broadcasts(
                SYNC_STATE_PIPE@,
                STATE_REQUEST@,
            )
        }
    }

    /// The siblings in the list of panes become the known ones. Where there are new ones among
    /// them, they are asked, and told.
    pub open spec fn push_state_to_new_siblings(self) -> StateV {
        match (self.me.own_plugin_id, self.me.own_plugin_url, self.list.panes) {
            (Some(own), Some(url), Some(m)) => {
                let siblings = siblings_in(m.flat(), own, url);
                let newcomers = ascending(siblings.difference(self.me.known_siblings));
                let s = self.with_me(InstanceV { known_siblings: siblings, ..self.me });
                if newcomers.len() == 0 {
                    s
                } else {
                    s.ask_siblings().push_all(newcomers)
                }
            },
            _ => self,
        }
    }
}

impl State {
    /// Flips or sets the cwd rows. Returns whether to draw.
    pub fn handle_toggle_cwd_pipe(&mut self, payload: Option<&str>) -> (r: bool)
        ensures
            final(self)@ == old(self)@.toggle_cwd(
                match payload {
                    Some(raw) => Some(raw@),
                    None => None,
                },
            ),
            r == (final(self)@.config.show_cwd != old(self)@.config.show_cwd),
    {
        let requested = match payload {
            None => !self.config.show_cwd,
            Some(raw) => {
                let value = trim(raw);
                if value.as_str().is_empty() {
                    !self.config.show_cwd
                } else if same(value.as_str(), "true") {
                    true
                } else if same(value.as_str(), "false") {
                    false
                } else {
                    return false;
                }
            },
        };
        if self.config.show_cwd == requested {
            return false;
        }
        self.config.show_cwd = requested;
        true
    }

    /// A sibling moved the selection. Returns whether to draw.
    pub fn handle_selection_pipe(&mut self, payload: Option<&str>) -> (r: bool)
        ensures
            final(self)@ == old(self)@.selection_message(
                match payload {
                    Some(raw) => Some(raw@),
                    None => None,
                },
            ),
            r == (final(self)@.list.selected != old(self)@.list.selected),
    {
        match payload {
            Some(raw) => {
                let value = trim(raw);
                match parse_u32(value.as_str()) {
                    Some(target) => self.select_pane_id(target),
                    None => false,
                }
            },
            None => false,
        }
    }

    pub fn push_state_to(&mut self, plugin_id: u32)
        ensures
            final(self)@ == old(self)@.push_state_to(plugin_id),
    {
        if self.status.agents.is_empty() {
            assert(self@.status.agents.dom() =~= Set::empty());
            return ;
        }
        assert(self@.status.agents.dom() == self.status.agents@.dom());
        let dump = self.state_dump();
        self.send_to_plugin(plugin_id, SYNC_STATE_PIPE, dump);
    }

    /// A message about the agents. Returns whether to draw.
    pub fn handle_sync_state_pipe(&mut self, payload: Option<&str>, sender: Sender) -> (r: bool)
        ensures
            (final(self)@, r) == old(self)@.sync_message(
                match payload {
                    Some(raw) => Some(raw@),
                    None => None,
                },
                sender,
            ),
    {
        let raw = match payload {
            Some(raw) => raw,
            None => {
                return false;
            },
        };
        let value = trim(raw);
        if same(value.as_str(), STATE_REQUEST) {
            if let Sender::Plugin(asker) = sender {
                self.push_state_to(asker);
            }
            return false;
        }
        self.apply_state_dump(raw)
    }

    fn listed_own_url(&self, own: u32) -> (r: Option<String>)
        ensures
            opt_view(r) == (match self@.list.panes {
                Some(m) => own_url(m.flat(), own),
                None => None,
            }),
    {
        let manifest = match &self.list.panes {
            Some(manifest) => manifest,
            None => {
                return None;
            },
        };
        let panes = manifest.all_panes();
        let ghost v = views(panes@);
        let mut i: usize = 0;
        assert(v.skip(0) =~= v);
        while i < panes.len()
            invariant
                i <= panes.len(),
                v == views(panes@),
                self@.list.panes == Some(manifest@),
                v == manifest@.flat(),
                own_url(v, own) == own_url(v.skip(i as int), own),
            decreases panes.len() - i,
        {
            let pane = panes[i];
            let ghost rest = v.skip(i as int);
            assert(rest[0] == pane@);
            assert(rest.drop_first() =~= v.skip(i + 1));
            if pane.is_plugin && pane.id == own {
                return match &pane.plugin_url {
                    Some(url) => Some(url.clone()),
                    None => None,
                };
            }
            i += 1;
        }
        None
    }

    /// Learns where this plugin was loaded from. The host's answer about the own pane helps
    /// where the list of panes does not.
    pub fn learn_own_plugin_url(&mut self, answer: Option<String>)
        ensures
            final(self)@ == old(self)@.learn_own_plugin_url(opt_view(answer)),
    {
        if self.me.own_plugin_url.is_some() {
            return ;
        }
        let own = match self.me.own_plugin_id {
            Some(own) => own,
            None => {
                return ;
            },
        };
        let listed = self.listed_own_url(own);
        self.me.own_plugin_url = if listed.is_some() {
            listed
        } else {
            answer
        };
    }

    fn push_all_to(&mut self, id: u32)
        ensures
            final(self)@ == old(self)@.push_all_to(id),
    {
        let shown = if self.config.show_cwd {
            "true".to_owned()
        } else {
            "false".to_owned()
        };
        self.send_to_plugin(id, TOGGLE_CWD_PIPE, shown);
        self.push_width_to(id);
        if !self.list.marked.is_empty() {
            self.push_marks_to(id);
        }
        self.push_state_to(id);
        if !self.status.commands.is_empty() {
            let dump = self.command_dump();
            self.send_to_plugin(id, COMMAND_STATE_PIPE, dump);
        }
    }

    fn ask_siblings(&mut self)
        ensures
            final(self)@ == old(self)@.ask_siblings(),
    {
        if self.width.width_target.is_none() {
            self.broadcast_to_siblings(WIDTH_PIPE, WIDTH_REQUEST);
        }
        if !self.me.state_requested {
            self.me.state_requested = true;
            self.broadcast_to_siblings(SYNC_STATE_PIPE, STATE_REQUEST);
        }
    }

    /// Notes the siblings in the list of panes, and brings new ones up to date.
    pub fn push_state_to_new_siblings(&mut self)
        ensures
            final(self)@ == old(self)@.push_state_to_new_siblings(),
    {
        let siblings = match (&self.me.own_plugin_id, &self.me.own_plugin_url, &self.list.panes) {
            (Some(own), Some(url), Some(manifest)) => sibling_set(manifest, *own, url.as_str()),
            _ => {
                return ;
            },
        };
        let newcomers = missing_from(&siblings, &self.me.known_siblings);
        self.me.known_siblings = siblings;
        if newcomers.len() == 0 {
            return ;
        }
        self.ask_siblings();
        let ghost start = self@;
        let mut i: usize = 0;
        assert(newcomers@.take(0) =~= Seq::empty());
        while i < newcomers.len()
            invariant
                i <= newcomers.len(),
                self@ == start.push_all(newcomers@.take(i as int)),
            decreases newcomers.len() - i,
        {
            assert(newcomers@.take(i + 1).drop_last() =~= newcomers@.take(i as int));
            self.push_all_to(newcomers[i]);
            i += 1;
        }
        assert(newcomers@.take(i as int) =~= newcomers@);
    }
}

fn sibling_set(manifest: &PaneManifest, own: u32, url: &str) -> (r: BTreeSet<u32>)
    ensures
        r@ == siblings_in(manifest@.flat(), own, url@),
{
    let panes = manifest.all_panes();
    let ghost v = views(panes@);
    let mut out: BTreeSet<u32> = BTreeSet::new();
    let mut i: usize = 0;
    assert(v.take(0) =~= Seq::empty());
    while i < panes.len()
        invariant
            i <= panes.len(),
            v == views(panes@),
            out@ == siblings_in(v.take(i as int), own, url@),
        decreases panes.len() - i,
    {
        let pane = panes[i];
        assert(v.take(i + 1).drop_last() =~= v.take(i as int));
        assert(v.take(i + 1).last() == pane@);
        if pane.is_plugin && pane.id != own && is_text(&pane.plugin_url, url) {
            out.insert(pane.id);
        }
        i += 1;
    }
    assert(v.take(i as int) =~= v);
    out
}

/// The members of one set that another lacks, the smallest first.
fn missing_from(all: &BTreeSet<u32>, known: &BTreeSet<u32>) -> (r: Vec<u32>)
    ensures
        r@ == ascending(all@.difference(known@)),
{
    let items = set_items(all);
    let mut out: Vec<u32> = Vec::new();
    let mut i: usize = 0;
    while i < items.len()
        invariant
            i <= items.len(),
            items@.to_set() == all@,
            increasing(items@),
            increasing(out@),
            forall|j: int| 0 <= j < out.len() && i < items.len() ==> out@[j] < items@[i as int],
            forall|j: int|
                0 <= j < out.len() ==> all@.contains(#[trigger] out@[j]) && !known@.contains(
                    out@[j],
                ),
            forall|j: int|
                0 <= j < i && !known@.contains(#[trigger] items@[j]) ==> out@.contains(items@[j]),
        decreases items.len() - i,
    {
        let id = items[i];
        assert(items@.to_set().contains(id));
        let ghost before = out@;
        if !known.contains(&id) {
            out.push(id);
            assert(out@[out.len() - 1] == id);
        }
        assert forall|j: int| 0 <= j < i + 1 && !known@.contains(#[trigger] items@[j]) implies
            out@.contains(items@[j]) by {
            if j < i {
                assert(before.contains(items@[j]));
                let n = choose|n: int| 0 <= n < before.len() && before[n] == items@[j];
                assert(out@[n] == items@[j]);
            }
        }
        i += 1;
    }
    assert(out@.to_set() =~= all@.difference(known@)) by {
        assert forall|k: u32| out@.to_set().contains(k) == all@.difference(known@).contains(k) by {
            if all@.contains(k) && !known@.contains(k) {
                assert(items@.to_set().contains(k));
                assert(items@.contains(k));
                let j = choose|j: int| 0 <= j < items@.len() && items@[j] == k;
                assert(!known@.contains(items@[j]));
            }
            if out@.contains(k) {
                let j = choose|j: int| 0 <= j < out@.len() && out@[j] == k;
                assert(all@.contains(out@[j]));
            }
        }
    }
    proof {
        lemma_ascending_of(out@);
    }
    out
}

// --- laws ---

/// Flipping the cwd rows twice changes nothing, and a newcomer that hears the present state
/// takes it over, whatever it had.
pub proof fn law_cwd_rows_agree(s: StateV, t: StateV)
    ensures
        s.toggle_cwd(None).toggle_cwd(None) == s,
        t.toggle_cwd(Some(word(s.config.show_cwd))).config.show_cwd == s.config.show_cwd,
{
    reveal_strlit("true");
    reveal_strlit("false");
    let w = word(s.config.show_cwd);
    assert(w[0] == 't' || w[0] == 'f');
    assert(w[w.len() - 1] == 'e');
    assert(trimmed(w) == w);
    assert("true"@[0] == 't');
    assert("false"@[0] == 'f');
}

/// A sibling that hears of a selection and lists the pane selects the same pane.
pub proof fn law_selection_is_shared(t: StateV, id: u32)
    requires
        has_pane(t.list.selectable, id),
        t.list.selectable.len() <= usize::MAX,
    ensures
        t.selection_message(Some(digits(id as nat))).selected_pane() == Some(id),
{
    lemma_trimmed_digits(id as nat);
    lemma_parsed_digits(id as nat, u32::MAX as nat);
    lemma_place_of(t.list.selectable, id);
}

} // verus!
