//! What has to be asked of the host before an event or a message is taken in.

use vstd::prelude::*;

use crate::host::{PaneId, PaneManifestV, Sender};
use crate::ids::group_views;
use crate::payload::{StatusPayload, StatusPayloadV};
use crate::plugin::{text_view, AnswersV, Event, EventV};
use crate::report::{is_new_agent, new_agent};
use crate::state::{ListingV, State, StateV};
use crate::text::same;
use crate::wire::{
    NAV_DOWN_PIPE, NAV_GO_PIPE, NAV_MODE_PIPE, NAV_UP_PIPE, PREVIEW_PIPE, STATUS_PIPE,
};

verus! {

broadcast use group_views;

impl StateV {
    /// The event is taken in by where the focus is.
    pub open spec fn wants_focus(self, event: EventV) -> bool {
        !self.me.is_preview && match event {
            EventV::Visible(visible) => visible,
            EventV::TabUpdate(_) | EventV::PaneUpdate(_) => true,
            _ => false,
        }
    }

    /// The event is taken in by what the own pane is.
    pub open spec fn wants_own_pane(self, event: EventV) -> bool {
        !self.me.is_preview && self.me.own_plugin_id is Some && match event {
            EventV::Permission(granted) => granted && (!self.me.summoned || self.me.own_plugin_url
                is None),
            EventV::PaneUpdate(_) => self.me.own_plugin_url is None,
            _ => false,
        }
    }

    /// The message is taken in by where the focus is: a direct key, the request for nav mode,
    /// and the report of a new agent.
    pub open spec fn message_wants_focus(
        self,
        name: Seq<char>,
        payload: Option<Seq<char>>,
    ) -> bool {
        !self.me.is_preview && (name == NAV_UP_PIPE@ || name == NAV_DOWN_PIPE@ || name
            == NAV_GO_PIPE@ || name == NAV_MODE_PIPE@ || (name == STATUS_PIPE@ && payload is Some
            && match StatusPayloadV::read(payload->0) {
            Some(report) => new_agent(report),
            None => false,
        }))
    }
}

impl State {
    /// Whether the focus has to be known before the event is taken in.
    pub fn wants_focus(&self, event: &Event) -> (r: bool)
        ensures
            r == self@.wants_focus(event@),
    {
        !self.me.is_preview && match event {
            Event::Visible(visible) => *visible,
            Event::TabUpdate(_) => true,
            Event::PaneUpdate(_) => true,
            _ => false,
        }
    }

    /// Whether the own pane has to be known before the event is taken in.
    pub fn wants_own_pane(&self, event: &Event) -> (r: bool)
        ensures
            r == self@.wants_own_pane(event@),
    {
        !self.me.is_preview && self.me.own_plugin_id.is_some() && match event {
            Event::Permission(granted) => *granted && (!self.me.summoned
                || self.me.own_plugin_url.is_none()),
            Event::PaneUpdate(_) => self.me.own_plugin_url.is_none(),
            _ => false,
        }
    }

    /// Whether the focus has to be known before the message is taken in.
    pub fn message_wants_focus(&self, name: &str, payload: Option<&str>) -> (r: bool)
        ensures
            r == self@.message_wants_focus(name@, text_view(payload)),
    {
        if self.me.is_preview {
            return false;
        }
        if same(name, NAV_UP_PIPE) || same(name, NAV_DOWN_PIPE) || same(name, NAV_GO_PIPE) || same(
            name,
            NAV_MODE_PIPE,
        ) {
            return true;
        }
        if !same(name, STATUS_PIPE) {
            return false;
        }
        match payload {
            Some(raw) => match StatusPayload::parse(raw) {
                Some(report) => is_new_agent(&report),
                None => false,
            },
            None => false,
        }
    }
}

// --- laws ---

proof fn lemma_panes_keep_me(s: StateV, manifest: PaneManifestV)
    ensures
        ({
            let a = s.apply_command_states(manifest).apply_read_model(manifest);
            let b = StateV { list: ListingV { panes: Some(manifest), ..a.list }, ..a };
            b.rebuild_selectable().prune_stale_agents().me == s.me
        }),
{
}

/// What was not asked of the host does not count: an event leads to the same state whatever
/// such an answer would have been.
pub proof fn law_only_asked_answers_count(s: StateV, event: EventV, a: AnswersV, b: AnswersV)
    requires
        s.wants_focus(event) ==> a.focus == b.focus,
        s.wants_own_pane(event) ==> a.floating == b.floating && a.plugin_url == b.plugin_url,
    ensures
        s.update(event, a) == s.update(event, b),
{
    if let EventV::PaneUpdate(manifest) = event {
        lemma_panes_keep_me(s, manifest);
    }
}

/// The same of messages.
pub proof fn law_only_asked_focus_counts(
    s: StateV,
    name: Seq<char>,
    payload: Option<Seq<char>>,
    sender: Sender,
    a: Option<(usize, PaneId)>,
    b: Option<(usize, PaneId)>,
)
    requires
        s.message_wants_focus(name, payload) ==> a == b,
    ensures
        s.pipe(name, payload, sender, a) == s.pipe(name, payload, sender, b),
{
    reveal(StateV::on_message);
    if s.me.is_preview && name == PREVIEW_PIPE@ {
        reveal_strlit("fujin_preview");
        reveal_strlit("fujin_status");
        reveal_strlit("fujin_up");
        reveal_strlit("fujin_down");
        reveal_strlit("fujin_go");
        reveal_strlit("fujin_mode");
        assert(name.len() == 13);
    }
}

} // verus!
