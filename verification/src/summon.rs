//! Summoning: where the focused tab has no sidebar, a temporary floating one is opened there.

use std::collections::BTreeSet;

use vstd::prelude::*;

use crate::focus::panes_at;
use crate::host::{
    entries, Coordinates, Extent, HostCall, HostCallV, Opening, PaneId, PaneInfo, PaneInfoV,
    PaneManifest, PaneManifestV,
};
use crate::ids::{ascending, group_views, has_id, increasing, opt_view, set_items, views};
use crate::state::{InstanceV, State, StateV};
use crate::text::is_text;

verus! {

broadcast use group_views;

/// The width of a sidebar, in columns.
pub const SIDEBAR_WIDTH: usize = 32;

/// Set on a summoned instance. It is no setting of the user.
pub const SUMMONED_KEY: &'static str = "summoned";

/// At the left edge, over the whole height.
pub open spec fn summon_place() -> Coordinates {
    Coordinates {
        x: 0,
        y: 0,
        width: Extent::Fixed(SIDEBAR_WIDTH),
        height: Extent::Percent(100),
        pinned: true,
    }
}

/// One of the panes is an instance of the plugin at this location.
pub open spec fn has_instance(panes: Seq<PaneInfoV>, url: Seq<char>) -> bool {
    exists|i: int|
        0 <= i < panes.len() && (#[trigger] panes[i]).is_plugin && panes[i].plugin_url == Some(url)
}

/// The instances of the plugin at this location.
pub open spec fn instances(panes: Seq<PaneInfoV>, url: Seq<char>) -> Set<u32>
    decreases panes.len(),
{
    if panes.len() == 0 {
        Set::empty()
    } else {
        let front = instances(panes.drop_last(), url);
        let p = panes.last();
        if p.is_plugin && p.plugin_url == Some(url) {
            front.insert(p.id)
        } else {
            front
        }
    }
}

/// Of all instances that are alive, the one with the smallest id acts.
pub open spec fn is_delegate(ids: Set<u32>, own: u32, live: Seq<u32>) -> bool {
    ids.contains(own) && forall|id: u32| #[trigger] ids.contains(id) && id < own ==> !live.contains(id)
}

/// The panes that are floating instances other than this one, as requests to close them.
pub open spec fn stranded(panes: Seq<PaneInfoV>, url: Seq<char>, own: Option<u32>) -> Seq<HostCallV>
    decreases panes.len(),
{
    if panes.len() == 0 {
        Seq::empty()
    } else {
        let front = stranded(panes.drop_last(), url, own);
        let p = panes.last();
        if p.is_plugin && p.is_floating && p.plugin_url == Some(url) && Some(p.id) != own {
            front.push(HostCallV::ClosePluginPane(p.id))
        } else {
            front
        }
    }
}

/// What the host knows of the tab where the user is.
#[verifier::ext_equal]
pub struct Whereabouts {
    pub focused_tab: Option<usize>,
    /// The panes of the session.
    pub session: Option<PaneManifestV>,
    /// The plugin panes that exist.
    pub live: Seq<u32>,
}

impl StateV {
    /// The configuration of a summoned instance.
    pub open spec fn summon_config(self) -> Seq<(Seq<char>, Seq<char>)> {
        let a = seq![(SUMMONED_KEY@, "true"@)];
        let b = if self.config.show_cwd {
            a.push(("show_cwd"@, "true"@))
        } else {
            a
        };
        if self.config.show_deploy_animation {
            b
        } else {
            b.push(("show_deploy_animation"@, "false"@))
        }
    }

    pub open spec fn with_summoned_panes(self, summoned_panes: Map<usize, u32>) -> StateV {
        self.with_me(InstanceV { summoned_panes, ..self.me })
    }

    /// The panes to go by: those of the session, or else those last reported.
    pub open spec fn panes_known(self, session: Option<PaneManifestV>) -> Option<PaneManifestV> {
        if session is Some {
            session
        } else {
            self.list.panes
        }
    }

    /// The tab has no sidebar, and this instance is the one to open it.
    pub open spec fn must_summon(self, m: PaneManifestV, tab: usize, live: Seq<u32>) -> bool {
        let url = self.me.own_plugin_url->0;
        !(panes_at(m, tab) is Some && has_instance(panes_at(m, tab)->0, url)) && is_delegate(
            instances(m.flat(), url),
            self.me.own_plugin_id->0,
            live,
        )
    }

    /// This instance summoned one into the tab, and it is still there.
    pub open spec fn has_summoned(self, tab: usize, live: Seq<u32>) -> bool {
        self.me.summoned_panes.contains_key(tab) && live.contains(self.me.summoned_panes[tab])
    }

    pub open spec fn unsummon(self, tab: usize) -> StateV {
        self.asks(HostCallV::ClosePluginPane(self.me.summoned_panes[tab])).with_summoned_panes(
            self.me.summoned_panes.remove(tab),
        )
    }

    pub open spec fn request_summon(self, tab: usize) -> StateV {
        self.asks(
            HostCallV::OpenFloating(
                self.me.own_plugin_url->0,
                self.summon_config(),
                summon_place(),
                Opening::Summon(tab),
            ),
        )
    }

    /// The plugin panes of which a summon has to know whether they exist.
    pub open spec fn liveness_queries(self, tab: usize, session: Option<PaneManifestV>) -> Seq<
        u32,
    > {
        let ids = match (self.me.own_plugin_url, self.panes_known(session)) {
            (Some(url), Some(m)) => ascending(instances(m.flat(), url)),
            _ => Seq::empty(),
        };
        if self.me.summoned_panes.contains_key(tab) {
            ids.push(self.me.summoned_panes[tab])
        } else {
            ids
        }
    }

    /// A summoned instance in the focused tab is closed again: nav mode was asked for twice.
    /// Otherwise one is opened, where the tab has none and this instance is the one to act.
    pub open spec fn summon(self, w: Whereabouts) -> StateV {
        let m = self.panes_known(w.session);
        if self.me.own_plugin_id is None || self.me.own_plugin_url is None || w.focused_tab is None
            || m is None {
            self
        } else if self.has_summoned(w.focused_tab->0, w.live) {
            self.unsummon(w.focused_tab->0)
        } else if self.must_summon(m->0, w.focused_tab->0, w.live) {
            self.request_summon(w.focused_tab->0)
        } else {
            self
        }
    }

    /// The summoned instance is there: it is put in its place and told about the agents.
    pub open spec fn summon_opened(self, tab: usize, opened: Option<PaneId>) -> StateV {
        match opened {
            Some(PaneId::Plugin(id)) => self.with_summoned_panes(
                self.me.summoned_panes.insert(tab, id),
            ).asks(
                HostCallV::ChangeCoordinates(PaneId::Plugin(id), summon_place()),
            ).push_state_to(id),
            _ => self,
        }
    }

    /// A floating instance that nobody summoned acts as if it had been summoned.
    pub open spec fn adopt_floating(self, floating: bool) -> StateV {
        if self.me.summoned || self.me.own_plugin_id is None || !floating {
            self
        } else {
            self.with_me(
                InstanceV { summoned: true, pending_nav_entry: true, ..self.me },
            ).asks(
                HostCallV::ChangeCoordinates(
                    PaneId::Plugin(self.me.own_plugin_id->0),
                    summon_place(),
                ),
            )
        }
    }

    /// Enters nav mode if that was asked for and there are panes to show.
    pub open spec fn enter_nav_mode_if_pending(self) -> StateV {
        if !self.me.pending_nav_entry || !self.me.permissions_granted
            || self.list.selectable.len() == 0 {
            self
        } else {
            let s = self.with_me(InstanceV { pending_nav_entry: false, ..self.me });
            if s.nav.nav_mode {
                s
            } else {
                s.enter_nav_mode()
            }
        }
    }

    /// Closes the floating instances that were left behind.
    pub open spec fn dismiss_stranded(self) -> StateV {
        match (self.me.own_plugin_url, self.list.panes) {
            (Some(url), Some(m)) => StateV {
                calls: self.calls + stranded(m.flat(), url, self.me.own_plugin_id),
                ..self
            }.with_summoned_panes(Map::empty()),
            _ => self,
        }
    }

    /// The request to clean up: a summoned instance closes itself, any other closes the
    /// summoned ones.
    pub open spec fn dismiss(self) -> StateV {
        if self.me.summoned {
            self.exit_nav_mode()
        } else {
            self.dismiss_stranded()
        }
    }
}

fn summon_coordinates() -> (r: Coordinates)
    ensures
        r == summon_place(),
{
    Coordinates {
        x: 0,
        y: 0,
        width: Extent::Fixed(SIDEBAR_WIDTH),
        height: Extent::Percent(100),
        pinned: true,
    }
}

fn any_instance(panes: &Vec<PaneInfo>, url: &str) -> (r: bool)
    ensures
        r == has_instance(views(panes@), url@),
{
    let ghost v = views(panes@);
    let mut i: usize = 0;
    while i < panes.len()
        invariant
            i <= panes.len(),
            v == views(panes@),
            forall|j: int|
                0 <= j < i ==> !((#[trigger] v[j]).is_plugin && v[j].plugin_url == Some(url@)),
        decreases panes.len() - i,
    {
        assert(v[i as int] == panes[i as int]@);
        if panes[i].is_plugin && is_text(&panes[i].plugin_url, url) {
            return true;
        }
        i += 1;
    }
    false
}

impl State {
    /// Whether the tab has a sidebar.
    pub fn tab_has_fujin(manifest: &PaneManifest, tab_position: usize, own_url: &str) -> (r: bool)
        ensures
            r == (panes_at(manifest@, tab_position) is Some && has_instance(
                panes_at(manifest@, tab_position)->0,
                own_url@,
            )),
    {
        match manifest.tab_index(tab_position) {
            Some(i) => any_instance(&manifest.tabs[i].panes, own_url),
            None => false,
        }
    }

    /// The ids of all instances, the smallest first.
    pub fn sibling_plugin_ids(manifest: &PaneManifest, own_url: &str) -> (r: Vec<u32>)
        ensures
            r@ == ascending(instances(manifest@.flat(), own_url@)),
            r@.to_set() == instances(manifest@.flat(), own_url@),
            increasing(r@),
    {
        let panes = manifest.all_panes();
        let ghost v = views(panes@);
        let mut out: BTreeSet<u32> = BTreeSet::new();
        let mut i: usize = 0;
        assert(v.take(0) =~= Seq::empty());
        while i < panes.len()
            invariant
                i <= panes.len(),
                v == views(panes@),
                out@ == instances(v.take(i as int), own_url@),
            decreases panes.len() - i,
        {
            let pane = panes[i];
            assert(v.take(i + 1).drop_last() =~= v.take(i as int));
            assert(v.take(i + 1).last() == pane@);
            if pane.is_plugin && is_text(&pane.plugin_url, own_url) {
                out.insert(pane.id);
            }
            i += 1;
        }
        assert(v.take(i as int) =~= v);
        set_items(&out)
    }

    /// Whether this instance is the one to act for all.
    pub fn is_summon_delegate(
        manifest: &PaneManifest,
        own_id: u32,
        own_url: &str,
        live: &Vec<u32>,
    ) -> (r: bool)
        ensures
            r == is_delegate(instances(manifest@.flat(), own_url@), own_id, live@),
    {
        let ids = State::sibling_plugin_ids(manifest, own_url);
        let ghost set = instances(manifest@.flat(), own_url@);
        let mut i: usize = 0;
        while i < ids.len()
            invariant
                i <= ids.len(),
                set == instances(manifest@.flat(), own_url@),
                ids@.to_set() == set,
                increasing(ids@),
                forall|j: int|
                    0 <= j < i ==> (#[trigger] ids@[j]) != own_id && !live@.contains(ids@[j]),
            decreases ids.len() - i,
        {
            let id = ids[i];
            assert(ids@.to_set().contains(id));
            if id == own_id {
                assert forall|x: u32| #[trigger] set.contains(x) && x < own_id implies
                    !live@.contains(x) by {
                    assert(ids@.to_set().contains(x));
                    assert(ids@.contains(x));
                    let j = choose|j: int| 0 <= j < ids@.len() && ids@[j] == x;
                    assert(ids@[j] < ids@[i as int]);
                    if j > i {
                        assert(ids@[i as int] < ids@[j]);
                    }
                }
                return true;
            }
            if has_id(live, id) {
                proof {
                    if set.contains(own_id) && id > own_id {
                        assert(ids@.to_set().contains(own_id));
                        assert(ids@.contains(own_id));
                        let j = choose|j: int| 0 <= j < ids@.len() && ids@[j] == own_id;
                        assert(ids@[j] == own_id);
                        if j > i {
                            assert(ids@[i as int] < ids@[j]);
                        }
                    }
                }
                return false;
            }
            i += 1;
        }
        proof {
            if set.contains(own_id) {
                assert(ids@.to_set().contains(own_id));
                assert(ids@.contains(own_id));
                let j = choose|j: int| 0 <= j < ids@.len() && ids@[j] == own_id;
                assert(ids@[j] == own_id);
            }
        }
        false
    }

    /// The plugin panes of which a summon has to know whether they exist: all instances, and
    /// the one summoned into the tab before, if any.
    pub fn liveness_queries(&self, focused_tab: usize, session: &Option<PaneManifest>) -> (r: Vec<
        u32,
    >)
        ensures
            r@ == self@.liveness_queries(focused_tab, opt_view(*session)),
    {
        let mut ids: Vec<u32> = Vec::new();
        if let Some(url) = &self.me.own_plugin_url {
            let manifest = match session {
                Some(manifest) => Some(manifest),
                None => match &self.list.panes {
                    Some(manifest) => Some(manifest),
                    None => None,
                },
            };
            if let Some(manifest) = manifest {
                ids = State::sibling_plugin_ids(manifest, url.as_str());
            }
        }
        if let Some(previous) = self.me.summoned_panes.get(&focused_tab) {
            ids.push(*previous);
        }
        ids
    }

    fn summon_config(&self) -> (r: Vec<(&'static str, &'static str)>)
        ensures
            entries(r@) == self@.summon_config(),
    {
        let mut config: Vec<(&'static str, &'static str)> = Vec::new();
        config.push((SUMMONED_KEY, "true"));
        if self.config.show_cwd {
            config.push(("show_cwd", "true"));
        }
        if !self.config.show_deploy_animation {
            config.push(("show_deploy_animation", "false"));
        }
        assert(entries(config@) =~= self@.summon_config());
        config
    }

    fn must_summon(&self, manifest: &PaneManifest, tab: usize, live: &Vec<u32>) -> (r: bool)
        requires
            self.me.own_plugin_id is Some,
            self.me.own_plugin_url is Some,
        ensures
            r == self@.must_summon(manifest@, tab, live@),
    {
        match (&self.me.own_plugin_id, &self.me.own_plugin_url) {
            (Some(own), Some(url)) => !State::tab_has_fujin(manifest, tab, url.as_str())
                && State::is_summon_delegate(manifest, *own, url.as_str(), live),
            _ => false,
        }
    }

    fn unsummon(&mut self, tab: usize, live: &Vec<u32>) -> (r: bool)
        ensures
            r == old(self)@.has_summoned(tab, live@),
            final(self)@ == (if r {
                old(self)@.unsummon(tab)
            } else {
                old(self)@
            }),
    {
        let previous = match self.me.summoned_panes.get(&tab) {
            Some(previous) => *previous,
            None => {
                return false;
            },
        };
        if !has_id(live, previous) {
            return false;
        }
        self.ask(HostCall::ClosePluginPane(previous));
        self.me.summoned_panes.remove(&tab);
        true
    }

    fn request_summon(&mut self, tab: usize)
        requires
            old(self).me.own_plugin_url is Some,
        ensures
            final(self)@ == old(self)@.request_summon(tab),
    {
        let config = self.summon_config();
        if let Some(url) = &self.me.own_plugin_url {
            let url = url.clone();
            self.ask(
                HostCall::OpenFloating(url, config, summon_coordinates(), Opening::Summon(tab)),
            );
        }
    }

    /// Opens a sidebar in the focused tab where there is none. What the host knows comes as
    /// arguments: the focused tab, the panes of the session, and the plugin panes that exist.
    pub fn summon_floating_if_absent(
        &mut self,
        focused_tab: Option<usize>,
        session: Option<PaneManifest>,
        live: &Vec<u32>,
    )
        ensures
            final(self)@ == old(self)@.summon(
                Whereabouts { focused_tab, session: opt_view(session), live: live@ },
            ),
    {
        if self.me.own_plugin_id.is_none() || self.me.own_plugin_url.is_none() {
            return ;
        }
        let tab = match focused_tab {
            Some(tab) => tab,
            None => {
                return ;
            },
        };
        let needed = match &session {
            Some(manifest) => self.must_summon(manifest, tab, live),
            None => match &self.list.panes {
                Some(manifest) => self.must_summon(manifest, tab, live),
                None => {
                    return ;
                },
            },
        };
        if self.unsummon(tab, live) {
            return ;
        }
        if needed {
            self.request_summon(tab);
        }
    }

    /// Takes the answer to the request for a summoned instance.
    pub fn summon_opened(&mut self, tab: usize, opened: Option<PaneId>)
        ensures
            final(self)@ == old(self)@.summon_opened(tab, opened),
    {
        if let Some(PaneId::Plugin(id)) = opened {
            self.me.summoned_panes.insert(tab, id);
            self.ask(HostCall::ChangeCoordinates(PaneId::Plugin(id), summon_coordinates()));
            self.push_state_to(id);
        }
    }

    /// Takes in whether the own pane floats.
    pub fn adopt_floating_as_summoned(&mut self, floating: bool)
        ensures
            final(self)@ == old(self)@.adopt_floating(floating),
    {
        if self.me.summoned || !floating {
            return ;
        }
        if let Some(own) = self.me.own_plugin_id {
            self.me.summoned = true;
            self.me.pending_nav_entry = true;
            self.ask(HostCall::ChangeCoordinates(PaneId::Plugin(own), summon_coordinates()));
        }
    }

    pub fn enter_nav_mode_if_pending(&mut self)
        ensures
            final(self)@ == old(self)@.enter_nav_mode_if_pending(),
    {
        if !self.me.pending_nav_entry || !self.me.permissions_granted
            || self.list.selectable.len() == 0 {
            return ;
        }
        self.me.pending_nav_entry = false;
        if !self.nav.nav_mode {
            self.enter_nav_mode();
        }
    }

    /// Closes the floating instances that were left behind.
    pub fn dismiss_stranded_summons(&mut self)
        ensures
            final(self)@ == old(self)@.dismiss_stranded(),
    {
        let own = self.me.own_plugin_id;
        let ids = match (&self.me.own_plugin_url, &self.list.panes) {
            (Some(url), Some(manifest)) => stranded_calls(manifest, url.as_str(), own),
            _ => {
                return ;
            },
        };
        let mut ids = ids;
        let ghost start = self@;
        self.calls.append(&mut ids);
        assert(self@.calls =~= start.calls + stranded(
            start.list.panes->0.flat(),
            start.me.own_plugin_url->0,
            own,
        ));
        self.me.summoned_panes.clear();
    }

    /// The request to clean up. Nothing is drawn.
    pub fn handle_dismiss_pipe(&mut self) -> (r: bool)
        ensures
            final(self)@ == old(self)@.dismiss(),
            !r,
    {
        if self.me.summoned {
            self.exit_nav_mode();
        } else {
            self.dismiss_stranded_summons();
        }
        false
    }
}

fn stranded_calls(manifest: &PaneManifest, url: &str, own: Option<u32>) -> (r: Vec<HostCall>)
    ensures
        views(r@) == stranded(manifest@.flat(), url@, own),
{
    let panes = manifest.all_panes();
    let ghost v = views(panes@);
    let mut out: Vec<HostCall> = Vec::new();
    let mut i: usize = 0;
    assert(v.take(0) =~= Seq::empty());
    while i < panes.len()
        invariant
            i <= panes.len(),
            v == views(panes@),
            views(out@) == stranded(v.take(i as int), url@, own),
        decreases panes.len() - i,
    {
        let pane = panes[i];
        assert(v.take(i + 1).drop_last() =~= v.take(i as int));
        assert(v.take(i + 1).last() == pane@);
        let is_own = match own {
            Some(own) => own == pane.id,
            None => false,
        };
        if pane.is_plugin && pane.is_floating && is_text(&pane.plugin_url, url) && !is_own {
            out.push(HostCall::ClosePluginPane(pane.id));
        }
        i += 1;
    }
    assert(v.take(i as int) =~= v);
    out
}

// --- laws ---

/// Of the instances that are alive and see the same panes, exactly one acts.
pub proof fn law_one_delegate(ids: Set<u32>, live: Seq<u32>, a: u32, b: u32)
    requires
        live.contains(a),
        live.contains(b),
        is_delegate(ids, a, live),
        is_delegate(ids, b, live),
    ensures
        a == b,
{
}

/// Where an instance is alive, one acts.
pub proof fn law_some_delegate(ids: Set<u32>, live: Seq<u32>, a: u32)
    requires
        ids.contains(a),
        live.contains(a),
    ensures
        exists|d: u32| #[trigger] is_delegate(ids, d, live) && live.contains(d),
    decreases a,
{
    if !is_delegate(ids, a, live) {
        let b = choose|b: u32| #[trigger] ids.contains(b) && b < a && live.contains(b);
        law_some_delegate(ids, live, b);
    }
}

/// A tab that has a sidebar never gets a second one.
pub proof fn law_no_second_sidebar(s: StateV, w: Whereabouts, i: int)
    requires
        w.session is Some,
        w.focused_tab is Some,
        s.me.own_plugin_url is Some,
        panes_at(w.session->0, w.focused_tab->0) is Some,
        has_instance(panes_at(w.session->0, w.focused_tab->0)->0, s.me.own_plugin_url->0),
        s.calls.len() <= i < s.summon(w).calls.len(),
    ensures
        s.summon(w).calls[i] is ClosePluginPane,
{
}

proof fn lemma_stranded(panes: Seq<PaneInfoV>, url: Seq<char>, own: Option<u32>, i: int)
    requires
        0 <= i < panes.len(),
        panes[i].is_plugin,
        panes[i].is_floating,
        panes[i].plugin_url == Some(url),
        Some(panes[i].id) != own,
    ensures
        stranded(panes, url, own).contains(HostCallV::ClosePluginPane(panes[i].id)),
    decreases panes.len(),
{
    let front = stranded(panes.drop_last(), url, own);
    let call = HostCallV::ClosePluginPane(panes[i].id);
    if i == panes.len() - 1 {
        assert(stranded(panes, url, own)[front.len() as int] == call);
    } else {
        lemma_stranded(panes.drop_last(), url, own, i);
        let k = choose|k: int| 0 <= k < front.len() && front[k] == call;
        assert(stranded(panes, url, own)[k] == call);
    }
}

/// Cleaning up leaves no floating sidebar behind: each one that a resident sidebar sees is
/// closed by it, and a summoned one closes itself.
pub proof fn law_dismiss_sweeps(s: StateV, i: int)
    ensures
        s.me.summoned && s.me.own_plugin_id is Some ==> s.dismiss().calls.last()
            == HostCallV::ClosePluginPane(s.me.own_plugin_id->0),
        !s.me.summoned && s.me.own_plugin_url is Some && s.list.panes is Some && 0 <= i
            < (s.list.panes->0).flat().len() ==> {
            let pane = (s.list.panes->0).flat()[i];
            pane.is_plugin && pane.is_floating && pane.plugin_url == s.me.own_plugin_url
                && Some(pane.id) != s.me.own_plugin_id ==> s.dismiss().calls.contains(
                HostCallV::ClosePluginPane(pane.id),
            )
        },
{
    if !s.me.summoned && s.me.own_plugin_url is Some && s.list.panes is Some && 0 <= i < (
    s.list.panes->0).flat().len() {
        let panes = (s.list.panes->0).flat();
        let url = s.me.own_plugin_url->0;
        if panes[i].is_plugin && panes[i].is_floating && panes[i].plugin_url == Some(url)
            && Some(panes[i].id) != s.me.own_plugin_id {
            lemma_stranded(panes, url, s.me.own_plugin_id, i);
            let asked = stranded(panes, url, s.me.own_plugin_id);
            let call = HostCallV::ClosePluginPane(panes[i].id);
            let k = choose|k: int| 0 <= k < asked.len() && asked[k] == call;
            assert(s.dismiss().calls[s.calls.len() + k] == call);
        }
    }
}

} // verus!
