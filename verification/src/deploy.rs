//! The deployment animation: when new agents report for duty, troops march out of the
//! header, line up on the right, and vanish again.

use vstd::prelude::*;

use crate::ids::group_views;
use crate::state::{ClockV, State, StateV};
use crate::text::same;

verus! {

broadcast use group_views;

/// One marching agent.
pub const TROOP: &'static str = "▵";

/// How many columns a troop moves per frame.
pub const SPEED: usize = 2;

/// How many frames lie between the starts of two troops.
pub const STAGGER: usize = 2;

/// How many columns lie between the landing places of two troops.
pub const LANDING_GAP: usize = 2;

/// For how many frames the lined up troops stay.
pub const HOLD: usize = 3;

/// A running animation: how many troops take part, and the frames since the start.
#[derive(Debug, Clone, Copy, PartialEq, Eq, Structural)]
pub struct Deployment {
    pub troops: usize,
    pub frame: usize,
}

/// A count that grew; it does not grow past the largest value.
pub open spec fn grown(n: usize, by: usize) -> usize {
    if n + by <= usize::MAX {
        (n + by) as usize
    } else {
        usize::MAX
    }
}

/// Where a troop comes to rest: the first one outermost, the others nearer to the start. A
/// troop without room left of the others does not take part.
pub open spec fn landing(index: nat, launch: nat, width: nat) -> Option<nat> {
    if launch + 1 + LANDING_GAP * index <= width {
        Some((width - 1 - LANDING_GAP * index) as nat)
    } else {
        None
    }
}

/// How many frames a troop needs from its start to its landing place.
pub open spec fn flight(index: nat, launch: nat, width: nat) -> Option<nat> {
    match landing(index, launch, width) {
        Some(column) => Some(((column - launch + 1) / 2) as nat),
        None => None,
    }
}

/// When the last of the first `n` troops has landed.
pub open spec fn last_landing(n: nat, launch: nat, width: nat) -> nat
    decreases n,
{
    if n == 0 {
        0
    } else {
        let before = last_landing((n - 1) as nat, launch, width);
        match flight((n - 1) as nat, launch, width) {
            Some(frames) => if STAGGER * (n - 1) + frames > before {
                (STAGGER * (n - 1) + frames) as nat
            } else {
                before
            },
            None => before,
        }
    }
}

impl Deployment {
    /// Where a troop is: on its way, or at its landing place. None before its start.
    pub open spec fn place(self, index: nat, launch: nat, width: nat) -> Option<nat> {
        match landing(index, launch, width) {
            Some(column) => if STAGGER * index <= self.frame {
                let x = (launch + SPEED * (self.frame - STAGGER * index)) as nat;
                Some(
                    if x < column {
                        x
                    } else {
                        column
                    },
                )
            } else {
                None
            },
            None => None,
        }
    }

    /// The places of the first `n` troops, from left to right.
    pub open spec fn places(self, n: nat, launch: nat, width: nat) -> Seq<usize>
        decreases n,
    {
        if n == 0 {
            Seq::empty()
        } else {
            let inner = self.places((n - 1) as nat, launch, width);
            match self.place((n - 1) as nat, launch, width) {
                Some(x) => seq![x as usize] + inner,
                None => inner,
            }
        }
    }

    /// The frame after which nothing is shown any more.
    pub open spec fn end(self, launch: nat, width: nat) -> nat {
        last_landing(self.troops as nat, launch, width) + HOLD as nat
    }

    pub fn new(troops: usize) -> (r: Deployment)
        ensures
            r == (Deployment { troops, frame: 0 }),
    {
        Deployment { troops, frame: 0 }
    }

    /// More agents join the running animation.
    pub fn reinforce(&mut self, troops: usize)
        ensures
            *final(self) == (Deployment { troops: grown(old(self).troops, troops), ..*old(self) }),
    {
        self.troops = self.troops.saturating_add(troops);
    }

    pub fn advance(&mut self)
        ensures
            *final(self) == (Deployment { frame: grown(old(self).frame, 1), ..*old(self) }),
    {
        self.frame = self.frame.saturating_add(1);
    }

    /// The columns of the troops on screen, from left to right.
    pub fn columns(&self, launch: usize, width: usize) -> (r: Vec<usize>)
        ensures
            r@ == self.places(self.troops as nat, launch as nat, width as nat),
    {
        let mut columns: Vec<usize> = Vec::new();
        let mut n: usize = self.troops;
        let ghost all = self.places(self.troops as nat, launch as nat, width as nat);
        assert(columns@ + all =~= all);
        while n > 0
            invariant
                n <= self.troops,
                all == self.places(self.troops as nat, launch as nat, width as nat),
                all == columns@ + self.places(n as nat, launch as nat, width as nat),
            decreases n,
        {
            let ghost inner = self.places((n - 1) as nat, launch as nat, width as nat);
            if let Some(x) = self.column(n - 1, launch, width) {
                assert(columns@ + (seq![x] + inner) =~= columns@.push(x) + inner);
                columns.push(x);
            }
            n -= 1;
        }
        assert(columns@ + Seq::<usize>::empty() =~= columns@);
        columns
    }

    /// Whether all troops have landed and were shown long enough.
    pub fn is_over(&self, launch: usize, width: usize) -> (r: bool)
        ensures
            r == (self.frame > self.end(launch as nat, width as nat)),
    {
        self.frame > self.last_frame(launch, width)
    }

    /// Where the troop is on screen, if it is.
    pub fn column(&self, index: usize, launch: usize, width: usize) -> (r: Option<usize>)
        ensures
            r is Some == self.place(index as nat, launch as nat, width as nat) is Some,
            r is Some ==> r->0 == self.place(index as nat, launch as nat, width as nat)->0,
    {
        let landing = match landing_column(index, launch, width) {
            Some(landing) => landing,
            None => {
                return None;
            },
        };
        let start = index * STAGGER;
        if self.frame < start {
            return None;
        }
        let elapsed = self.frame - start;
        let x = launch.saturating_add(elapsed).saturating_add(elapsed);
        if x < landing {
            Some(x)
        } else {
            Some(landing)
        }
    }

    /// The last frame that is shown.
    pub fn last_frame(&self, launch: usize, width: usize) -> (r: usize)
        ensures
            r == (if self.end(launch as nat, width as nat) <= usize::MAX {
                self.end(launch as nat, width as nat)
            } else {
                usize::MAX as nat
            }),
    {
        let mut last: usize = 0;
        let mut i: usize = 0;
        while i < self.troops
            invariant
                i <= self.troops,
                last == last_landing(i as nat, launch as nat, width as nat),
            decreases self.troops - i,
        {
            if let Some(frames) = flight_frames(i, launch, width) {
                let landed = i * STAGGER + frames;
                if landed > last {
                    last = landed;
                }
            }
            i += 1;
        }
        last.saturating_add(HOLD)
    }
}

/// The landing place of a troop.
pub fn landing_column(index: usize, launch: usize, width: usize) -> (r: Option<usize>)
    ensures
        r is Some == landing(index as nat, launch as nat, width as nat) is Some,
        r is Some ==> r->0 == landing(index as nat, launch as nat, width as nat)->0,
        r is Some ==> LANDING_GAP * index < width,
{
    if width == 0 || index > (width - 1) / LANDING_GAP {
        return None;
    }
    let column = width - 1 - LANDING_GAP * index;
    if column >= launch {
        Some(column)
    } else {
        None
    }
}

/// The frames of a troop from its start to its landing place.
pub fn flight_frames(index: usize, launch: usize, width: usize) -> (r: Option<usize>)
    ensures
        r is Some == flight(index as nat, launch as nat, width as nat) is Some,
        r is Some ==> r->0 == flight(index as nat, launch as nat, width as nat)->0,
        r is Some ==> STAGGER * index + r->0 <= width,
{
    match landing_column(index, launch, width) {
        Some(landing) => {
            let way = landing - launch;
            Some(way / SPEED + way % SPEED)
        },
        None => None,
    }
}

/// A session start stands for a new agent, unless it only clears or compacts a running one.
pub open spec fn reports_for_duty(source: Option<Seq<char>>) -> bool {
    source != Some("clear"@) && source != Some("compact"@)
}

/// Whether a session start with this reason stands for a new agent.
pub fn detect_new_agent(source: Option<&str>) -> (r: bool)
    ensures
        r == reports_for_duty(
            match source {
                Some(s) => Some(s@),
                None => None,
            },
        ),
{
    match source {
        Some(s) => !same(s, "clear") && !same(s, "compact"),
        None => true,
    }
}

// --- the animation of a sidebar ---

impl StateV {
    pub open spec fn with_deployment(self, deployment: Option<Deployment>) -> StateV {
        StateV { clock: ClockV { deployment, ..self.clock }, ..self }
    }

    /// Troops march out. Those that come while others march join them.
    pub open spec fn begin_deployment(self, troops: usize) -> StateV {
        if !self.config.show_deploy_animation {
            self
        } else {
            match self.clock.deployment {
                Some(d) => self.with_deployment(
                    Some(Deployment { troops: grown(d.troops, troops), ..d }),
                ),
                None => self.with_deployment(Some(Deployment { troops, frame: 0 })).arm_timer(),
            }
        }
    }

    /// The next frame; after the last one nothing is left of the animation.
    pub open spec fn advance_deployment(self) -> StateV {
        match self.clock.deployment {
            Some(d) => {
                let next = Deployment { frame: grown(d.frame, 1), ..d };
                let (launch, width) = self.troop_field(self.screen.viewport_cols as nat);
                if next.frame > next.end(launch, width) {
                    self.with_deployment(None)
                } else {
                    self.with_deployment(Some(next))
                }
            },
            None => self,
        }
    }
}

impl State {
    /// Starts the animation, or adds to the one that runs.
    pub fn begin_deployment(&mut self, troops: usize)
        ensures
            final(self)@ == old(self)@.begin_deployment(troops),
    {
        if !self.config.show_deploy_animation {
            return ;
        }
        match self.clock.deployment {
            Some(deployment) => {
                let mut deployment = deployment;
                deployment.reinforce(troops);
                self.clock.deployment = Some(deployment);
            },
            None => {
                self.clock.deployment = Some(Deployment::new(troops));
                self.arm_timer();
            },
        }
    }

    /// Goes on by one frame. Returns whether to draw.
    pub fn advance_deployment(&mut self) -> (r: bool)
        ensures
            final(self)@ == old(self)@.advance_deployment(),
            r == (old(self)@.clock.deployment is Some),
    {
        let (launch, width) = self.troop_field(self.screen.viewport_cols);
        match self.clock.deployment {
            Some(deployment) => {
                let mut deployment = deployment;
                deployment.advance();
                self.clock.deployment = if deployment.is_over(launch, width) {
                    None
                } else {
                    Some(deployment)
                };
                true
            },
            None => false,
        }
    }
}

// --- laws ---

/// Where the first `n` troops come to rest, from left to right.
pub open spec fn landings(n: nat, launch: nat, width: nat) -> Seq<usize>
    decreases n,
{
    if n == 0 {
        Seq::empty()
    } else {
        let inner = landings((n - 1) as nat, launch, width);
        match landing((n - 1) as nat, launch, width) {
            Some(x) => seq![x as usize] + inner,
            None => inner,
        }
    }
}

proof fn lemma_places(d: Deployment, n: nat, launch: nat, width: nat)
    requires
        width <= usize::MAX,
    ensures
        forall|i: int, j: int|
            0 <= i < j < d.places(n, launch, width).len() ==> d.places(n, launch, width)[i]
                + LANDING_GAP * (j - i) <= d.places(n, launch, width)[j],
        forall|i: int|
            0 <= i < d.places(n, launch, width).len() ==> launch <= #[trigger] d.places(
                n,
                launch,
                width,
            )[i] < width,
        n > 0 && d.place(n, launch, width) is Some ==> d.places(n, launch, width).len() > 0,
        d.places(n, launch, width).len() > 0 && d.place(n, launch, width) is Some ==> d.place(
            n,
            launch,
            width,
        )->0 + LANDING_GAP <= d.places(n, launch, width)[0],
    decreases n,
{
    if n > 0 {
        let m = (n - 1) as nat;
        lemma_places(d, m, launch, width);
        let inner = d.places(m, launch, width);
        let all = d.places(n, launch, width);
        if let Some(x) = d.place(m, launch, width) {
            assert(all == seq![x as usize] + inner);
            assert forall|i: int, j: int| 0 <= i < j < all.len() implies all[i] + LANDING_GAP * (j
                - i) <= all[j] by {
                if i > 0 {
                    assert(all[i] == inner[i - 1] && all[j] == inner[j - 1]);
                    assert(inner[i - 1] + LANDING_GAP * ((j - 1) - (i - 1)) <= inner[j - 1]);
                } else if j > 1 {
                    assert(all[j] == inner[j - 1]);
                    assert(inner[0] + LANDING_GAP * (j - 1) <= inner[j - 1]);
                }
            }
        } else {
            assert(d.place(n, launch, width) is None);
        }
    }
}

/// Neighbours are at least the landing gap apart, at every moment, and no troop leaves the
/// room between the start and the edge.
pub proof fn law_troops_in_line(d: Deployment, launch: nat, width: nat)
    requires
        width <= usize::MAX,
    ensures
        forall|i: int, j: int|
            0 <= i < j < d.places(d.troops as nat, launch, width).len() ==> d.places(
                d.troops as nat,
                launch,
                width,
            )[i] + LANDING_GAP * (j - i) <= d.places(d.troops as nat, launch, width)[j],
        forall|i: int|
            0 <= i < d.places(d.troops as nat, launch, width).len() ==> launch <= #[trigger] d.places(
                d.troops as nat,
                launch,
                width,
            )[i] < width,
{
    lemma_places(d, d.troops as nat, launch, width);
}

proof fn lemma_last_landing(n: nat, launch: nat, width: nat)
    ensures
        last_landing(n, launch, width) <= width,
        forall|i: nat|
            i < n && (#[trigger] flight(i, launch, width)) is Some ==> STAGGER * i + flight(
                i,
                launch,
                width,
            )->0 <= last_landing(n, launch, width),
    decreases n,
{
    if n > 0 {
        lemma_last_landing((n - 1) as nat, launch, width);
    }
}

/// The animation ends: it is over at the latest when as many frames were shown as the
/// header has columns, and the hold time on top.
pub proof fn law_deployment_ends(d: Deployment, launch: nat, width: nat)
    ensures
        d.end(launch, width) <= width + HOLD,
{
    lemma_last_landing(d.troops as nat, launch, width);
}

/// During the hold time every troop that takes part stands at its landing place.
pub proof fn law_troops_line_up(d: Deployment, index: nat, launch: nat, width: nat)
    requires
        index < d.troops,
        landing(index, launch, width) is Some,
        d.frame + HOLD >= d.end(launch, width),
    ensures
        d.place(index, launch, width) == landing(index, launch, width),
{
    lemma_last_landing(d.troops as nat, launch, width);
    assert(flight(index, launch, width) is Some);
}

proof fn lemma_all_landed(d: Deployment, n: nat, launch: nat, width: nat)
    requires
        n <= d.troops,
        d.frame + HOLD >= d.end(launch, width),
    ensures
        d.places(n, launch, width) == landings(n, launch, width),
    decreases n,
{
    if n > 0 {
        let m = (n - 1) as nat;
        lemma_all_landed(d, m, launch, width);
        if landing(m, launch, width) is Some {
            law_troops_line_up(d, m, launch, width);
        }
    }
}

/// When all have landed, what is shown is exactly the row of landing places, with the same gap
/// between all of them.
pub proof fn law_row_of_troops(d: Deployment, launch: nat, width: nat)
    requires
        d.frame + HOLD >= d.end(launch, width),
        width <= usize::MAX,
    ensures
        d.places(d.troops as nat, launch, width) == landings(d.troops as nat, launch, width),
        forall|i: int|
            0 <= i < landings(d.troops as nat, launch, width).len()
                ==> #[trigger] landings(d.troops as nat, launch, width)[i] == width - 1
                - LANDING_GAP * (landings(d.troops as nat, launch, width).len() - 1 - i),
{
    lemma_all_landed(d, d.troops as nat, launch, width);
    lemma_landings(d.troops as nat, launch, width);
}

proof fn lemma_landings(n: nat, launch: nat, width: nat)
    requires
        width <= usize::MAX,
    ensures
        landing(n, launch, width) is Some ==> landings(n, launch, width).len() == n,
        forall|i: int|
            0 <= i < landings(n, launch, width).len() ==> #[trigger] landings(n, launch, width)[i]
                == width - 1 - LANDING_GAP * (landings(n, launch, width).len() - 1 - i),
        n > 0 && landing((n - 1) as nat, launch, width) is Some ==> landings(n, launch, width).len()
            == n,
    decreases n,
{
    if n > 0 {
        let m = (n - 1) as nat;
        lemma_landings(m, launch, width);
        let inner = landings(m, launch, width);
        let all = landings(n, launch, width);
        if landing(m, launch, width) is Some {
            assert(inner.len() == m);
            assert forall|i: int| 0 <= i < all.len() implies #[trigger] all[i] == width - 1
                - LANDING_GAP * (all.len() - 1 - i) by {
                if i > 0 {
                    assert(all[i] == inner[i - 1]);
                }
            }
        }
    }
}

} // verus!
