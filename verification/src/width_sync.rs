//! Sidebars of one width: when the user resizes one, the others follow.
//!
//! The host only resizes by steps, so an instance moves towards the shared width one step
//! per frame and looks where it landed.

use vstd::prelude::*;

use crate::host::{HostCall, HostCallV, PaneId, Resize, Sender};
use crate::ids::group_views;
use crate::state::{State, StateV, WidthSyncV};
use crate::text::{
    decimal, digits, lemma_digits_without, lemma_parsed_digits, lemma_trimmed_digits, parse_usize,
    parsed, same, trim, trimmed,
};
use crate::wire::WIDTH_PIPE;

verus! {

broadcast use group_views;

/// How many steps are made towards a width before giving up.
pub const WIDTH_MAX_ATTEMPTS: usize = 6;

/// A width that is off by this much counts as reached.
pub const WIDTH_TOLERANCE: usize = 1;

/// The question for the shared width.
pub const WIDTH_REQUEST: &'static str = "?";

pub open spec fn distance(a: usize, b: usize) -> nat {
    if a < b {
        (b - a) as nat
    } else {
        (a - b) as nat
    }
}

/// A step went from one side of the target to the other.
pub open spec fn crossed(target: usize, previous: usize, cols: usize) -> bool {
    cols != target && !(previous < target && cols < target) && !(previous > target && cols
        > target)
}

impl WidthSyncV {
    /// A width to reach, with nothing tried yet.
    pub open spec fn aimed(self, target: usize) -> WidthSyncV {
        WidthSyncV {
            width_target: Some(target),
            width_attempts: 0,
            width_settled: false,
            ..self
        }
    }

    /// A step was made. One that crossed the target at no greater distance than before is the
    /// nearest that can be reached.
    pub open spec fn after_step(self, previous: usize, cols: usize) -> WidthSyncV {
        if self.width_target is Some && crossed(self.width_target->0, previous, cols) && distance(
            self.width_target->0,
            cols,
        ) <= distance(self.width_target->0, previous) {
            WidthSyncV { width_settled: true, ..self }
        } else {
            self
        }
    }
}

impl StateV {
    pub open spec fn with_width(self, width: WidthSyncV) -> StateV {
        StateV { width, ..self }
    }

    /// The user resized this instance: the others are to follow.
    pub open spec fn claim_width_authority(self, cols: usize) -> StateV {
        self.with_width(self.width.aimed(cols)).broadcasts(WIDTH_PIPE@, digits(cols as nat))
    }

    /// The next step towards the shared width, if one is left to make.
    pub open spec fn apply_width_target(self, cols: usize) -> StateV {
        match self.width.width_target {
            None => self,
            Some(target) => if distance(target, cols) <= WIDTH_TOLERANCE {
                self.with_width(
                    WidthSyncV { width_attempts: 0, width_settled: false, ..self.width },
                )
            } else if self.width.width_settled {
                self
            } else if self.width.width_attempts >= WIDTH_MAX_ATTEMPTS {
                self.with_width(WidthSyncV { width_settled: true, ..self.width })
            } else {
                match self.me.own_plugin_id {
                    None => self,
                    Some(own) => {
                        let resize = if cols < target {
                            Resize::Increase
                        } else {
                            Resize::Decrease
                        };
                        self.with_width(
                            WidthSyncV {
                                width_attempts: (self.width.width_attempts + 1) as usize,
                                width_adjusting: Some(resize),
                                ..self.width
                            },
                        ).asks(HostCallV::ResizePane(resize, PaneId::Plugin(own)))
                    },
                }
            },
        }
    }

    /// A step of this instance is under way and has not shown yet.
    pub open spec fn width_pending(self, cols: usize) -> bool {
        self.width.width_adjusting is Some && self.screen.viewport_cols == cols
    }

    /// The width of a new frame, before the next step. A change that no step of this instance
    /// explains is the user's.
    pub open spec fn width_observed(self, cols: usize) -> StateV {
        let previous = self.screen.viewport_cols;
        match self.width.width_adjusting {
            Some(fired) => {
                let s = self.with_width(WidthSyncV { width_adjusting: None, ..self.width });
                let landed = match fired {
                    Resize::Increase => cols > previous,
                    Resize::Decrease => cols < previous,
                };
                if landed {
                    s.with_width(s.width.after_step(previous, cols))
                } else {
                    s.claim_width_authority(cols)
                }
            },
            None => if previous != 0 && previous != cols && self.width.width_target != Some(cols) {
                self.claim_width_authority(cols)
            } else {
                self
            },
        }
    }

    /// The width of a new frame. Summoned and preview instances have widths of their own.
    pub open spec fn reconcile_width(self, cols: usize) -> StateV {
        if self.me.is_preview || self.me.summoned || cols == 0 || self.width_pending(cols) {
            self
        } else {
            self.width_observed(cols).apply_width_target(cols)
        }
    }

    pub open spec fn push_width_to(self, plugin_id: u32) -> StateV {
        match self.width.width_target {
            Some(target) => self.sends(plugin_id, WIDTH_PIPE@, digits(target as nat)),
            None => self,
        }
    }

    /// A message about the width: a question, which is answered, or a new width.
    pub open spec fn width_message(self, payload: Option<Seq<char>>, sender: Sender) -> (
        StateV,
        bool,
    ) {
        match payload {
            None => (self, false),
            Some(raw) => if trimmed(raw) == WIDTH_REQUEST@ {
                match sender {
                    Sender::Plugin(asker) => (self.push_width_to(asker), false),
                    _ => (self, false),
                }
            } else {
                match parsed(trimmed(raw), usize::MAX as nat) {
                    Some(n) => if n > 0 && self.width.width_target != Some(n as usize) {
                        (self.with_width(self.width.aimed(n as usize)), true)
                    } else {
                        (self, false)
                    },
                    None => (self, false),
                }
            },
        }
    }
}

fn width_distance(a: usize, b: usize) -> (r: usize)
    ensures
        r == distance(a, b),
{
    if a < b {
        b - a
    } else {
        a - b
    }
}

impl State {
    fn aim_width(&mut self, target: usize)
        ensures
            final(self)@ == old(self)@.with_width(old(self)@.width.aimed(target)),
    {
        self.width.width_target = Some(target);
        self.width.width_attempts = 0;
        self.width.width_settled = false;
    }

    fn claim_width_authority(&mut self, cols: usize)
        ensures
            final(self)@ == old(self)@.claim_width_authority(cols),
    {
        self.aim_width(cols);
        let payload = decimal(cols as u128);
        self.broadcast_to_siblings(WIDTH_PIPE, payload.as_str());
    }

    fn settle_width_after_step(&mut self, previous: usize, cols: usize)
        ensures
            final(self)@ == old(self)@.with_width(old(self)@.width.after_step(previous, cols)),
    {
        let target = match self.width.width_target {
            Some(target) => target,
            None => {
                return ;
            },
        };
        let same_side = (previous < target && cols < target) || (previous > target && cols
            > target);
        if cols == target || same_side {
            return ;
        }
        if width_distance(target, cols) <= width_distance(target, previous) {
            self.width.width_settled = true;
        }
    }

    fn apply_width_target(&mut self, cols: usize)
        ensures
            final(self)@ == old(self)@.apply_width_target(cols),
    {
        let target = match self.width.width_target {
            Some(target) => target,
            None => {
                return ;
            },
        };
        if width_distance(target, cols) <= WIDTH_TOLERANCE {
            self.width.width_attempts = 0;
            self.width.width_settled = false;
            return ;
        }
        if self.width.width_settled {
            return ;
        }
        if self.width.width_attempts >= WIDTH_MAX_ATTEMPTS {
            self.width.width_settled = true;
            return ;
        }
        let own = match self.me.own_plugin_id {
            Some(own) => own,
            None => {
                return ;
            },
        };
        let resize = if cols < target {
            Resize::Increase
        } else {
            Resize::Decrease
        };
        self.width.width_attempts = self.width.width_attempts + 1;
        self.width.width_adjusting = Some(resize);
        self.ask(HostCall::ResizePane(resize, PaneId::Plugin(own)));
    }

    /// Looks at the width of a new frame, before it is noted as drawn.
    pub fn reconcile_width(&mut self, cols: usize)
        ensures
            final(self)@ == old(self)@.reconcile_width(cols),
    {
        if self.me.is_preview || self.me.summoned || cols == 0 {
            return ;
        }
        let previous = self.screen.viewport_cols;
        if let Some(fired) = self.width.width_adjusting {
            if previous == cols {
                return ;
            }
            self.width.width_adjusting = None;
            let landed = match fired {
                Resize::Increase => cols > previous,
                Resize::Decrease => cols < previous,
            };
            if landed {
                self.settle_width_after_step(previous, cols);
            } else {
                self.claim_width_authority(cols);
            }
        } else {
            let reached = match self.width.width_target {
                Some(target) => target == cols,
                None => false,
            };
            if previous != 0 && previous != cols && !reached {
                self.claim_width_authority(cols);
            }
        }
        self.apply_width_target(cols);
    }

    /// A message about the width. Returns whether to draw; drawing is what moves the width.
    pub fn handle_width_pipe(&mut self, payload: Option<&str>, sender: Sender) -> (r: bool)
        ensures
            (final(self)@, r) == old(self)@.width_message(
                match payload {
                    Some(raw) => Some(raw@),
                    None => None,
                },
                sender,
            ),
    {
        let raw = match payload {
            Some(raw) => trim(raw),
            None => {
                return false;
            },
        };
        if same(raw.as_str(), WIDTH_REQUEST) {
            if let Sender::Plugin(asker) = sender {
                self.push_width_to(asker);
            }
            return false;
        }
        let target = match parse_usize(raw.as_str()) {
            Some(target) => target,
            None => {
                return false;
            },
        };
        if target == 0 {
            return false;
        }
        if let Some(known) = self.width.width_target {
            if known == target {
                return false;
            }
        }
        self.aim_width(target);
        true
    }

    pub fn push_width_to(&mut self, plugin_id: u32)
        ensures
            final(self)@ == old(self)@.push_width_to(plugin_id),
    {
        if let Some(target) = self.width.width_target {
            self.send_to_plugin(plugin_id, WIDTH_PIPE, decimal(target as u128));
        }
    }
}

// --- laws ---

/// The steps towards one width are bounded, and each one is counted.
pub proof fn law_width_steps_bounded(s: StateV, cols: usize)
    requires
        s.width.width_attempts <= WIDTH_MAX_ATTEMPTS,
    ensures
        s.reconcile_width(cols).width.width_attempts <= WIDTH_MAX_ATTEMPTS,
        s.width.width_attempts == WIDTH_MAX_ATTEMPTS ==> s.apply_width_target(cols).calls
            == s.calls,
{
}

/// A step that lands where it was meant to is never taken for the user's: it is not told to
/// the siblings, and the shared width stays.
pub proof fn law_own_step_is_not_news(s: StateV, cols: usize)
    requires
        s.width.width_adjusting == Some(Resize::Increase) && cols > s.screen.viewport_cols
            || s.width.width_adjusting == Some(Resize::Decrease) && cols < s.screen.viewport_cols,
    ensures
        s.reconcile_width(cols).width.width_target == s.width.width_target,
        s.reconcile_width(cols).calls == s.calls || exists|call: HostCallV|
            call is ResizePane && #[trigger] s.calls.push(call) == s.reconcile_width(cols).calls,
{
    let t = s.width_observed(cols);
    let r = s.reconcile_width(cols);
    assert(t.calls == s.calls);
    if r.calls != s.calls {
        let resize = r.width.width_adjusting->0;
        let call = HostCallV::ResizePane(resize, PaneId::Plugin(s.me.own_plugin_id->0));
        assert(s.calls.push(call) == r.calls);
    }
}

/// What the user sets is what the siblings are told, and a sibling that hears it aims for it.
pub proof fn law_width_is_shared(s: StateV, t: StateV, cols: usize, sender: Sender)
    requires
        cols > 0,
    ensures
        s.claim_width_authority(cols).width.width_target == Some(cols),
        t.width_message(Some(digits(cols as nat)), sender).0.width.width_target == Some(cols),
{
    lemma_trimmed_digits(cols as nat);
    lemma_parsed_digits(cols as nat, usize::MAX as nat);
    lemma_digits_without(cols as nat, '?');
    reveal_strlit("?");
    let d = digits(cols as nat);
    if d == "?"@ {
        assert(d[0] == '?');
        assert(d.contains('?'));
    }
}

} // verus!
