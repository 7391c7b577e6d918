//! What holds of what is kept: the formations and the keys that edit them, the lines that
//! instances exchange, and the store with its index of sessions.

use vstd::prelude::*;

use crate::agent::{AgentInfoV, AgentState};
use crate::command::{CommandInfo, CommandState};
use crate::config::{ascii, lowered};
use crate::dump::{agent_line, command_line, Roster};
use crate::formation::{formation_place, members_in, FormationPromptV, FormationV, NameTargetV};
use crate::formation_sync::{assignment_line, formation_line};
use crate::host::{current_place, BareKey, HostCallV, Key, SessionInfoV};
use crate::ids::{ascending, group_views, lemma_ascending};
use crate::keys::{lists, plain, types};
use crate::mark::panes_in;
use crate::persistence::{
    components, entry_ok, fnv, fresh_id, hex, id_place, index_ok, inside_host, largest_session,
    missing_part, name_place, named_parts, tmp_name, SessionEntryV, SessionIndexV, StoreV,
};
use crate::preview::snapshot_text;
use crate::state::{FormationsV, SelectableV, StateV, StatusesV};
use crate::store::{IndexActionV, IndexUpdateV};
use crate::text::{
    control, digits, is_digit, joined, lemma_digits_len, lemma_number_of_digits, parsed, pieces,
    trimmed,
};
use crate::triage::has_pane;

verus! {

broadcast use group_views;

// --- formations ---

proof fn lemma_demote(g: FormationsV, pane_id: u32)
    ensures
        ({
            let h = g.demote(pane_id);
            &&& h.formations.len() == g.formations.len()
            &&& h.assignments == g.assignments
            &&& h.next_formation_id == g.next_formation_id
            &&& forall|i: int|
                #![trigger h.formations[i]]
                0 <= i < g.formations.len() ==> h.formations[i].id == g.formations[i].id
                    && h.formations[i].name == g.formations[i].name && h.formations[i].commander
                    == (if g.formations[i].commander == Some(pane_id) {
                    None
                } else {
                    g.formations[i].commander
                })
        }),
{
}

/// Joining a formation puts the members into it and nobody else anywhere. No formation changes
/// its name or its id, and a formation loses its commander if and only if that one joined.
#[verifier::rlimit(40)]
pub proof fn law_joining(g: FormationsV, id: u32, members: Seq<u32>)
    ensures
        ({
            let h = g.join(id, members);
            &&& forall|p: u32|
                members.contains(p) ==> #[trigger] h.assignments.contains_key(p)
                    && h.assignments[p] == id
            &&& forall|p: u32|
                !members.contains(p) ==> (#[trigger] h.assignments.contains_key(p)
                    == g.assignments.contains_key(p)) && (g.assignments.contains_key(p)
                    ==> h.assignments[p] == g.assignments[p])
            &&& h.formations.len() == g.formations.len()
            &&& h.next_formation_id == g.next_formation_id
            &&& forall|i: int|
                #![trigger h.formations[i]]
                0 <= i < g.formations.len() ==> h.formations[i].id == g.formations[i].id
                    && h.formations[i].name == g.formations[i].name && h.formations[i].commander
                    == (if g.formations[i].commander is Some && members.contains(
                    g.formations[i].commander->0,
                ) {
                    None
                } else {
                    g.formations[i].commander
                })
        }),
    decreases members.len(),
{
    if members.len() > 0 {
        let front = members.drop_last();
        let last = members.last();
        law_joining(g, id, front);
        let f = g.join(id, front);
        lemma_demote(f, last);
        assert(members =~= front.push(last));
        assert forall|p: u32| members.contains(p) <==> front.contains(p) || p == last by {
            if front.contains(p) {
                let i = choose|i: int| 0 <= i < front.len() && front[i] == p;
                assert(members[i] == p);
            }
            assert(members[members.len() - 1] == last);
        }
        let h = g.join(id, members);
        assert forall|i: int|
            #![trigger h.formations[i]]
            0 <= i < g.formations.len() implies h.formations[i].id == g.formations[i].id
            && h.formations[i].name == g.formations[i].name && h.formations[i].commander == (
        if g.formations[i].commander is Some && members.contains(g.formations[i].commander->0) {
            None
        } else {
            g.formations[i].commander
        }) by {
            assert(f.formations[i].id == g.formations[i].id);
            assert(h.formations[i] == f.demote(last).formations[i]);
        }
        assert forall|p: u32| members.contains(p) implies #[trigger] h.assignments.contains_key(p)
            && h.assignments[p] == id by {
            if p != last {
                assert(f.assignments.contains_key(p));
            }
        }
        assert forall|p: u32| !members.contains(p) implies (#[trigger] h.assignments.contains_key(p)
            == g.assignments.contains_key(p)) && (g.assignments.contains_key(p)
            ==> h.assignments[p] == g.assignments[p]) by {
            assert(!front.contains(p) && p != last);
            assert(f.assignments.contains_key(p) == g.assignments.contains_key(p));
        }
    }
}

/// Leaving takes the members out of their formations and nobody else; every formation stays, with
/// its name and its id.
#[verifier::rlimit(40)]
pub proof fn law_leaving(g: FormationsV, members: Seq<u32>)
    ensures
        ({
            let h = g.leave(members);
            &&& forall|p: u32| #[trigger] h.assignments.contains_key(p) <==> g.assignments.contains_key(p)
                && !members.contains(p)
            &&& forall|p: u32|
                #[trigger] h.assignments.contains_key(p) ==> h.assignments[p] == g.assignments[p]
            &&& h.formations.len() == g.formations.len()
            &&& h.next_formation_id == g.next_formation_id
            &&& forall|i: int|
                #![trigger h.formations[i]]
                0 <= i < g.formations.len() ==> h.formations[i].id == g.formations[i].id
                    && h.formations[i].name == g.formations[i].name
        }),
    decreases members.len(),
{
    if members.len() > 0 {
        let front = members.drop_last();
        let last = members.last();
        law_leaving(g, front);
        let f = g.leave(front);
        lemma_demote(f, last);
        let h = g.leave(members);
        assert forall|p: u32| members.contains(p) <==> front.contains(p) || p == last by {
            if front.contains(p) {
                let i = choose|i: int| 0 <= i < front.len() && front[i] == p;
                assert(members[i] == p);
            }
            if members.contains(p) && p != last {
                let i = choose|i: int| 0 <= i < members.len() && members[i] == p;
                assert(front[i] == p);
            }
            assert(members[members.len() - 1] == last);
        }
        assert forall|p: u32| #[trigger] h.assignments.contains_key(p)
            <==> g.assignments.contains_key(p) && !members.contains(p) by {
            assert(f.assignments.contains_key(p) <==> g.assignments.contains_key(p)
                && !front.contains(p));
        }
        assert forall|p: u32| #[trigger] h.assignments.contains_key(p) implies h.assignments[p]
            == g.assignments[p] by {
            assert(f.assignments.contains_key(p));
        }
        assert forall|i: int|
            #![trigger h.formations[i]]
            0 <= i < g.formations.len() implies h.formations[i].id == g.formations[i].id
            && h.formations[i].name == g.formations[i].name by {
            assert(f.formations[i].id == g.formations[i].id);
            if f.assignments.contains_key(last) {
                assert(h.formations[i] == f.demote(last).formations[i]);
            }
        }
    }
}

/// A new formation stands behind the others under its name, with the next id and without a
/// commander; its members are in it, and the next one gets another id.
pub proof fn law_creating(g: FormationsV, name: Seq<char>, members: Seq<u32>, p: u32)
    requires
        g.next_formation_id < u32::MAX,
    ensures
        ({
            let h = g.create(name, members);
            let n = g.formations.len() as int;
            &&& h.formations.len() == n + 1
            &&& h.formations[n].id == g.next_formation_id
            &&& h.formations[n].name == name
            &&& h.formations[n].commander is None
            &&& h.next_formation_id == g.next_formation_id + 1
            &&& members.contains(p) ==> h.assignments.contains_key(p) && h.assignments[p]
                == g.next_formation_id
            &&& !members.contains(p) ==> h.assignments.contains_key(p)
                == g.assignments.contains_key(p)
            &&& forall|i: int|
                #![trigger h.formations[i]]
                0 <= i < n ==> h.formations[i].id == g.formations[i].id && h.formations[i].name
                    == g.formations[i].name
        }),
{
    let grown = FormationsV {
        formations: g.formations.push(
            FormationV { id: g.next_formation_id, name, commander: None },
        ),
        next_formation_id: (g.next_formation_id + 1) as u32,
        ..g
    };
    law_joining(grown, g.next_formation_id, members);
    let h = g.create(name, members);
    assert(h.formations[g.formations.len() as int].id == g.next_formation_id);
    assert forall|i: int|
        #![trigger h.formations[i]]
        0 <= i < g.formations.len() implies h.formations[i].id == g.formations[i].id
        && h.formations[i].name == g.formations[i].name by {
        assert(grown.formations[i] == g.formations[i]);
    }
    assert(h.assignments.contains_key(p) || !h.assignments.contains_key(p));
}

proof fn lemma_formation_place(formations: Seq<FormationV>, id: u32, n: int)
    requires
        0 <= n < formations.len(),
        formations[n].id == id,
        forall|j: int| 0 <= j < n ==> (#[trigger] formations[j]).id != id,
    ensures
        formation_place(formations, id) == n,
    decreases n,
{
    if n > 0 {
        assert(formations[0].id != id);
        let rest = formations.drop_first();
        assert forall|j: int| 0 <= j < n - 1 implies (#[trigger] rest[j]).id != id by {
            assert(rest[j] == formations[j + 1]);
        }
        lemma_formation_place(rest, id, n - 1);
    }
}

/// Renaming changes the name of that formation, and nothing else of any.
pub proof fn law_renaming(g: FormationsV, n: int, name: Seq<char>)
    requires
        g.wf(),
        0 <= n < g.formations.len(),
    ensures
        ({
            let h = g.rename(g.formations[n].id, name);
            &&& h.formations.len() == g.formations.len()
            &&& h.formations[n] == (FormationV { name, ..g.formations[n] })
            &&& forall|i: int|
                0 <= i < g.formations.len() && i != n ==> (#[trigger] h.formations[i])
                    == g.formations[i]
            &&& h.assignments == g.assignments
            &&& h.next_formation_id == g.next_formation_id
        }),
{
    assert forall|j: int| 0 <= j < n implies (#[trigger] g.formations[j]).id
        != g.formations[n].id by {}
    lemma_formation_place(g.formations, g.formations[n].id, n);
}

/// A digit at the prompt picks the formation of that number, counted from one: the panes that
/// were meant join it and the prompt closes. A digit beyond the last formation does nothing.
pub proof fn law_picking(s: StateV, key: Key, c: char, p: u32)
    requires
        s.nav.formation_prompt is Some,
        s.nav.formation_prompt->0 is Pick,
        types(key, c),
        '1' <= c <= '9',
    ensures
        ({
            let t = s.formation_key(key).0;
            let n = c as int - '1' as int;
            let members = s.nav.formation_prompt->0->Pick_0;
            &&& n >= s.groups.formations.len() ==> t == s
            &&& n < s.groups.formations.len() ==> t.nav.formation_prompt is None && t.nav.nav_mode
                == s.nav.nav_mode && (members.contains(p) ==> t.groups.assignments.contains_key(p)
                && t.groups.assignments[p] == s.groups.formations[n].id) && (!members.contains(p)
                ==> t.groups.assignments.contains_key(p) == s.groups.assignments.contains_key(p))
        }),
{
    let n = c as int - '1' as int;
    let members = s.nav.formation_prompt->0->Pick_0;
    if n < s.groups.formations.len() {
        law_joining(s.groups, s.groups.formations[n].id, members);
        let h = s.groups.join(s.groups.formations[n].id, members);
        assert(h.assignments.contains_key(p) || !h.assignments.contains_key(p));
    }
}

/// The other keys where a formation is picked: Esc closes the prompt, `n` asks for the name of a
/// new formation for the same panes, and any other leaves nav mode. None edits a formation.
pub proof fn law_pick_prompt_keys(s: StateV, key: Key)
    requires
        s.nav.formation_prompt is Some,
        s.nav.formation_prompt->0 is Pick,
        plain(key),
    ensures
        ({
            let t = s.formation_key(key).0;
            let members = s.nav.formation_prompt->0->Pick_0;
            let digit = key.bare matches BareKey::Char(c) && '1' <= c <= '9';
            &&& key.bare == BareKey::Esc ==> t.nav.formation_prompt is None && t.nav.nav_mode
                == s.nav.nav_mode
            &&& types(key, 'n') ==> t.nav.formation_prompt == Some(
                FormationPromptV::Name(Seq::empty(), NameTargetV::New(members), false),
            ) && t.nav.nav_mode == s.nav.nav_mode
            &&& key.bare != BareKey::Esc && !types(key, 'n') && !digit ==> !t.nav.nav_mode
            &&& !digit ==> t.groups == s.groups
        }),
{
}

/// A name is typed: printable characters extend it, Backspace takes the last one back, Esc drops
/// it. None of them edits a formation.
pub proof fn law_name_prompt_keys(
    s: StateV,
    key: Key,
    input: Seq<char>,
    target: NameTargetV,
    taken: bool,
)
    requires
        s.nav.formation_prompt == Some(FormationPromptV::Name(input, target, taken)),
        plain(key),
        key.bare != BareKey::Enter,
    ensures
        ({
            let t = s.formation_key(key).0;
            &&& t.groups == s.groups
            &&& key.bare matches BareKey::Char(c) ==> t.nav.formation_prompt == Some(
                FormationPromptV::Name(
                    if control(c) {
                        input
                    } else {
                        input.push(c)
                    },
                    target,
                    false,
                ),
            )
            &&& key.bare == BareKey::Backspace ==> t.nav.formation_prompt == Some(
                FormationPromptV::Name(
                    if input.len() > 0 {
                        input.drop_last()
                    } else {
                        input
                    },
                    target,
                    false,
                ),
            )
            &&& key.bare == BareKey::Esc ==> t.nav.formation_prompt is None && t.nav.nav_mode
                == s.nav.nav_mode
            &&& key.bare == BareKey::Up || key.bare == BareKey::Down || key.bare == BareKey::Tab
                ==> !t.nav.nav_mode
        }),
{
}

/// Another formation than `except` has the name.
pub open spec fn in_use(g: FormationsV, name: Seq<char>, except: Option<u32>) -> bool {
    exists|i: int|
        0 <= i < g.formations.len() && (#[trigger] g.formations[i]).name == name && Some(
            g.formations[i].id,
        ) != except
}

/// Enter takes a name over without the white space around it. An empty one does nothing; one that
/// another formation has is refused and the prompt says so; a formation may keep its own.
pub proof fn law_confirming_a_name(
    s: StateV,
    key: Key,
    input: Seq<char>,
    target: NameTargetV,
    taken: bool,
)
    requires
        s.nav.formation_prompt == Some(FormationPromptV::Name(input, target, taken)),
        plain(key),
        key.bare == BareKey::Enter,
    ensures
        ({
            let t = s.formation_key(key).0;
            let name = trimmed(input);
            let except = match target {
                NameTargetV::Rename(id) => Some(id),
                NameTargetV::New(_) => None,
            };
            &&& name.len() == 0 ==> t == s
            &&& name.len() > 0 && in_use(s.groups, name, except) ==> t.groups == s.groups
                && t.nav.formation_prompt == Some(FormationPromptV::Name(input, target, true))
            &&& name.len() > 0 && !in_use(s.groups, name, except) ==> t.nav.formation_prompt is None
                && t.nav.nav_mode == s.nav.nav_mode && t.groups == (match target {
                NameTargetV::New(members) => s.groups.create(name, members),
                NameTargetV::Rename(id) => s.groups.rename(id, name),
            })
        }),
{
}

/// What an edit is about: the marked panes of the list where there are any, or the pane under the
/// cursor. With no formation yet the first one is named at once, else one is picked.
pub proof fn law_adding_begins(s: StateV, id: u32)
    requires
        s.nav.search is None,
        s.nav.triage is None,
        s.list.selected < s.list.selectable.len(),
        s.list.selectable[s.list.selected as int].pane_id == id,
        s.marked_in_tree_order().len() == 0,
    ensures
        s.groups.formations.len() == 0 ==> s.begin_formation_add().nav.formation_prompt == Some(
            FormationPromptV::Name(Seq::empty(), NameTargetV::New(seq![id]), false),
        ),
        s.groups.formations.len() > 0 ==> s.begin_formation_add().nav.formation_prompt == Some(
            FormationPromptV::Pick(seq![id]),
        ),
        s.begin_formation_add().groups == s.groups,
{
}

/// The pane under the cursor takes command of its formation, and a second time hands it back. The
/// other formations keep theirs.
pub proof fn law_command_toggles(s: StateV, id: u32, n: int)
    requires
        s.nav.search is None,
        s.nav.triage is None,
        s.list.selected < s.list.selectable.len(),
        s.list.selectable[s.list.selected as int].pane_id == id,
        s.groups.wf(),
        s.groups.assignments.contains_key(id),
        0 <= n < s.groups.formations.len(),
        s.groups.formations[n].id == s.groups.assignments[id],
    ensures
        ({
            let t = s.toggle_commander();
            &&& t.groups.formations.len() == s.groups.formations.len()
            &&& t.groups.formations[n].commander == (if s.groups.formations[n].commander == Some(
                id,
            ) {
                None
            } else {
                Some(id)
            })
            &&& t.groups.formations[n].name == s.groups.formations[n].name
            &&& forall|i: int|
                0 <= i < s.groups.formations.len() && i != n ==> (
                #[trigger] t.groups.formations[i]) == s.groups.formations[i]
            &&& t.groups.assignments == s.groups.assignments
        }),
{
    assert forall|j: int| 0 <= j < n implies (#[trigger] s.groups.formations[j]).id
        != s.groups.formations[n].id by {}
    lemma_formation_place(s.groups.formations, s.groups.formations[n].id, n);
}

/// The members of a formation are the panes of the list that were put into it, in the order of the
/// list.
pub proof fn law_members(list: Seq<SelectableV>, assignments: Map<u32, u32>, id: u32)
    ensures
        members_in(list, assignments, id) == list.filter(
            |e: SelectableV| assignments.contains_key(e.pane_id) && assignments[e.pane_id] == id,
        ),
    decreases list.len(),
{
    reveal(Seq::filter);
    if list.len() > 0 {
        law_members(list.drop_last(), assignments, id);
    } else {
        assert(members_in(list, assignments, id) =~= list.filter(
            |e: SelectableV| assignments.contains_key(e.pane_id) && assignments[e.pane_id] == id,
        ));
    }
}

/// Panes that left the list leave their formations, and no other pane does.
pub proof fn law_gone_panes_leave(s: StateV, p: u32)
    requires
        s.groups.assignments.dom().finite(),
    ensures
        s.prune_assignments().groups.assignments.contains_key(p)
            <==> s.groups.assignments.contains_key(p) && lists(s, p),
        s.prune_assignments().groups.assignments.contains_key(p)
            ==> s.prune_assignments().groups.assignments[p] == s.groups.assignments[p],
        s.prune_assignments().groups.formations.len() == s.groups.formations.len(),
{
    let away = s.groups.assignments.dom().filter(|id: u32| !has_pane(s.list.selectable, id));
    let gone = ascending(away);
    lemma_ascending(away);
    law_leaving(s.groups, gone);
    assert(gone.to_set().contains(p) <==> gone.contains(p));
    assert(away.contains(p) <==> s.groups.assignments.contains_key(p) && !has_pane(
        s.list.selectable,
        p,
    ));
    assert(lists(s, p) <==> has_pane(s.list.selectable, p)) by {
        if lists(s, p) {
            let i = choose|i: int|
                0 <= i < s.list.selectable.len() && (#[trigger] s.list.selectable[i]).pane_id == p;
            assert(s.list.selectable[i].pane_id == p);
        }
        if has_pane(s.list.selectable, p) {
            let i = choose|i: int|
                0 <= i < s.list.selectable.len() && (#[trigger] s.list.selectable[i]).pane_id == p;
            assert(s.list.selectable[i].pane_id == p);
        }
    }
}

// --- lines between instances ---

/// The word for a state between instances.
pub open spec fn state_word(state: AgentState) -> Seq<char> {
    match state {
        AgentState::Idle => "idle"@,
        AgentState::Working => "working"@,
        AgentState::Blocked => "blocked"@,
        AgentState::Done => "done"@,
        AgentState::Error => "error"@,
    }
}

/// The line of an agent: pane, state, subagents, open tasks, agent, directory, whether the turn
/// has ended, and the number of the last change, with tabs between them.
pub proof fn law_agent_line(id: u32, a: AgentInfoV, cwd: Seq<char>)
    ensures
        agent_line(id, a, cwd) == joined(
            seq![
                digits(id as nat),
                state_word(a.state),
                digits(a.subagents as nat),
                digits(a.open_tasks as nat),
                a.agent,
                cwd,
                if a.turn_ended {
                    "1"@
                } else {
                    "0"@
                },
                digits(a.state_change_seq as nat),
            ],
            "\t"@,
        ),
{
}

/// The line of a command: pane, state, whether it was read, and the number of the last change.
pub proof fn law_command_line(id: u32, c: CommandInfo)
    ensures
        command_line(id, c) == joined(
            seq![
                digits(id as nat),
                match c.state {
                    CommandState::Working => "working"@,
                    CommandState::Done => "done"@,
                    CommandState::Error => "error"@,
                },
                if c.read {
                    "1"@
                } else {
                    "0"@
                },
                digits(c.state_change_seq as nat),
            ],
            "\t"@,
        ),
{
}

/// The lines of a formation and of a member.
pub proof fn law_formation_lines(f: FormationV, pane_id: u32, id: u32)
    ensures
        formation_line(f) == joined(
            seq![
                "F"@,
                digits(f.id as nat),
                f.name,
                if f.commander is Some {
                    digits(f.commander->0 as nat)
                } else {
                    Seq::empty()
                },
            ],
            "\t"@,
        ),
        assignment_line(pane_id, id) == joined(
            seq!["A"@, digits(pane_id as nat), digits(id as nat)],
            "\t"@,
        ),
{
}

// --- the store ---

/// The parts of a path are what stands between its slashes, without what is empty or a dot.
pub proof fn law_components(path: Seq<char>)
    ensures
        components(path) == pieces(path, '/').filter(
            |part: Seq<char>| part.len() > 0 && part != "."@,
        ),
{
    lemma_named_parts(pieces(path, '/'));
}

proof fn lemma_named_parts(parts: Seq<Seq<char>>)
    ensures
        named_parts(parts) == parts.filter(|part: Seq<char>| part.len() > 0 && part != "."@),
    decreases parts.len(),
{
    reveal(Seq::filter);
    if parts.len() > 0 {
        lemma_named_parts(parts.drop_last());
    } else {
        assert(named_parts(parts) =~= parts.filter(
            |part: Seq<char>| part.len() > 0 && part != "."@,
        ));
    }
}

/// The store lies in `fujin` below the configuration directory, or below `.config` at home where
/// none is set to an absolute path. Without either there is no store.
pub proof fn law_store_place(s: StateV, xdg: Option<Seq<char>>, home: Option<Seq<char>>)
    requires
        s.disk.store == StoreV::Idle,
    ensures
        ({
            let set = xdg is Some && xdg->0.len() > 0 && xdg->0[0] == '/';
            let at_home = home is Some && home->0.len() > 0 && home->0[0] == '/';
            let t = s.open_store(xdg, home);
            let place = if set {
                components(xdg->0).push("fujin"@)
            } else {
                components(home->0).push(".config"@).push("fujin"@)
            };
            &&& set || at_home ==> t.disk.store == StoreV::Opening(place, place) && t.calls
                == s.calls.push(HostCallV::ChangeHostFolder(place))
            &&& !set && !at_home ==> t.disk.store == StoreV::Unavailable && t.calls == s.calls
        }),
{
}

/// The store is opened once: in any other state nothing is asked for.
pub proof fn law_store_opens_once(s: StateV, xdg: Option<Seq<char>>, home: Option<Seq<char>>)
    requires
        s.disk.store != StoreV::Idle,
    ensures
        s.open_store(xdg, home) == s,
{
}

/// Where the folder is the store itself the store is ready. Where it is one above, it waits for the
/// store to be made, and tries the store again when it was; a failure to make it is the end.
pub proof fn law_store_is_reached(
    s: StateV,
    target: Seq<Seq<char>>,
    attempt: Seq<Seq<char>>,
    rest: Seq<Seq<char>>,
)
    requires
        s.disk.store == StoreV::Opening(target, attempt),
        attempt + rest == target,
    ensures
        s.host_folder_changed(target).disk.store == StoreV::Ready,
        rest.len() > 0 ==> s.host_folder_changed(attempt) == s && missing_part(target, attempt)
            == Some(seq!["host"@] + rest),
        s.store_made(true).disk.store == StoreV::Opening(target, target),
        s.store_made(true).calls == s.calls.push(HostCallV::ChangeHostFolder(target)),
        s.store_made(false).disk.store == StoreV::Unavailable,
{
    assert(target.take(attempt.len() as int) =~= attempt);
    assert(target.skip(attempt.len() as int) =~= rest);
}

/// A folder that is not there leads one level up, three levels at most; then there is no store.
pub proof fn law_store_looks_above(
    s: StateV,
    target: Seq<Seq<char>>,
    attempt: Seq<Seq<char>>,
    rest: Seq<Seq<char>>,
)
    requires
        s.disk.store == StoreV::Opening(target, attempt),
        attempt + rest == target,
        attempt.len() > 0,
    ensures
        rest.len() < 3 ==> s.host_folder_failed().disk.store == StoreV::Opening(
            target,
            attempt.drop_last(),
        ) && s.host_folder_failed().calls == s.calls.push(
            HostCallV::ChangeHostFolder(attempt.drop_last()),
        ),
        rest.len() >= 3 ==> s.host_folder_failed().disk.store == StoreV::Unavailable
            && s.host_folder_failed().calls == s.calls,
{
    assert(target.take(attempt.len() as int) =~= attempt);
}

/// A file of the store is reached below the host's folder, and only by a path that stays there: an
/// absolute one, an empty one and one that goes up lead nowhere.
pub proof fn law_store_files(rel: Seq<char>)
    ensures
        rel.len() == 0 ==> inside_host(rel) is None,
        rel.len() > 0 && rel[0] == '/' ==> inside_host(rel) is None,
        components(rel).contains(".."@) ==> inside_host(rel) is None,
        inside_host(rel) is Some ==> inside_host(rel)->0 == seq!["host"@] + components(rel),
{
}

/// A file that is written before it replaces another lies in a directory of its own, under the
/// session's hash, the instance's id and the flattened path.
pub proof fn law_tmp_name_parts(rel: Seq<char>, plugin_id: u32, session: Seq<char>)
    ensures
        ({
            let name = tmp_name(rel, plugin_id, session);
            let head = "sessions/.tmp"@ + seq!['/'];
            &&& name.take(head.len() as int) == head
            &&& name.len() == head.len() + 16 + 1 + digits(plugin_id as nat).len() + 1 + rel.len()
            &&& forall|i: int|
                0 <= i < rel.len() ==> #[trigger] name[name.len() - rel.len() + i] == (if rel[i]
                    == '/' {
                    '_'
                } else {
                    rel[i]
                })
        }),
{
    let name = tmp_name(rel, plugin_id, session);
    let head = "sessions/.tmp"@ + seq!['/'];
    lemma_hex_len(fnv(vstd::utf8::encode_utf8(session)) as nat, 16);
    assert(name.take(head.len() as int) =~= head);
}

proof fn lemma_hex_len(n: nat, len: nat)
    ensures
        hex(n, len).len() == len,
    decreases len,
{
    if len > 0 {
        lemma_hex_len(n / 16, (len - 1) as nat);
    }
}

// --- the index of sessions ---

/// The session of this id keeps its id and gets the name; where its name did not change nothing is
/// written. No other entry changes.
pub proof fn law_known_session_is_renamed(
    index: SessionIndexV,
    name: Seq<char>,
    n: int,
    now: u64,
)
    requires
        0 <= n < index.sessions.len(),
        forall|j: int| 0 <= j < n ==> (#[trigger] index.sessions[j]).id != index.sessions[n].id,
    ensures
        ({
            let id = index.sessions[n].id;
            let (plan, got) = index.reconcile(name, Some(id), now);
            &&& got == id
            &&& index.sessions[n].name == name ==> plan is None
            &&& index.sessions[n].name != name ==> plan is Some && plan->0.sessions.len()
                == index.sessions.len() && plan->0.sessions[n] == (SessionEntryV {
                id,
                name,
                last_seen: index.sessions[n].last_seen,
            }) && plan->0.revision == index.revision && forall|i: int|
                0 <= i < index.sessions.len() && i != n ==> (#[trigger] plan->0.sessions[i])
                    == index.sessions[i]
        }),
{
    lemma_id_place(index.sessions, index.sessions[n].id, n);
}

/// A session that comes anew takes over the first entry of its name, which is seen again; without
/// one it gets an entry of its own at the end. No other entry changes.
pub proof fn law_new_session_is_entered(index: SessionIndexV, name: Seq<char>, n: int, now: u64)
    requires
        0 <= n <= index.sessions.len(),
        forall|j: int| 0 <= j < n ==> (#[trigger] index.sessions[j]).name != name,
        n < index.sessions.len() ==> index.sessions[n].name == name,
    ensures
        ({
            let (plan, id) = index.reconcile(name, None, now);
            &&& plan is Some
            &&& plan->0.revision == index.revision
            &&& plan->0.sessions[n].name == name
            &&& plan->0.sessions[n].last_seen == now
            &&& plan->0.sessions[n].id == id
            &&& n < index.sessions.len() ==> id == index.sessions[n].id && plan->0.sessions.len()
                == index.sessions.len()
            &&& n == index.sessions.len() ==> plan->0.sessions.len() == n + 1
            &&& forall|i: int|
                0 <= i < index.sessions.len() && i != n ==> (#[trigger] plan->0.sessions[i])
                    == index.sessions[i]
        }),
{
    lemma_name_place(index.sessions, name, n);
}

proof fn lemma_id_place(sessions: Seq<SessionEntryV>, id: Seq<char>, n: int)
    requires
        0 <= n < sessions.len(),
        sessions[n].id == id,
        forall|j: int| 0 <= j < n ==> (#[trigger] sessions[j]).id != id,
    ensures
        id_place(sessions, id) == n,
    decreases n,
{
    if n > 0 {
        assert(sessions[0].id != id);
        let rest = sessions.drop_first();
        assert forall|j: int| 0 <= j < n - 1 implies (#[trigger] rest[j]).id != id by {
            assert(rest[j] == sessions[j + 1]);
        }
        lemma_id_place(rest, id, n - 1);
    }
}

proof fn lemma_name_place(sessions: Seq<SessionEntryV>, name: Seq<char>, n: int)
    requires
        0 <= n <= sessions.len(),
        forall|j: int| 0 <= j < n ==> (#[trigger] sessions[j]).name != name,
        n < sessions.len() ==> sessions[n].name == name,
    ensures
        name_place(sessions, name) == n,
    decreases n,
{
    if n > 0 {
        assert(sessions[0].name != name);
        let rest = sessions.drop_first();
        assert forall|j: int| 0 <= j < n - 1 implies (#[trigger] rest[j]).name != name by {
            assert(rest[j] == sessions[j + 1]);
        }
        lemma_name_place(rest, name, n - 1);
    }
}

/// An update reads, plans, reads again and writes: nothing is written without a plan, nor over what
/// somebody else wrote meanwhile, and what is written has the next revision.
pub proof fn law_index_update(u: IndexUpdateV, index: SessionIndexV)
    requires
        index.revision < u64::MAX,
    ensures
        ({
            let (planned, id) = index.reconcile(u.name, u.current, u.now);
            let (a, next) = u.on_read(index);
            &&& a.assigned == Some(id)
            &&& a.planned == planned
            &&& planned is None ==> next == IndexActionV::Done
            &&& planned is Some ==> next == IndexActionV::Reread
            &&& u.planned is None ==> u.on_reread(index).1 == IndexActionV::Done
            &&& u.planned is Some && u.planned->0.revision == index.revision ==> u.on_reread(
                index,
            ).1 == IndexActionV::Write(
                SessionIndexV { revision: (index.revision + 1) as u64, ..u.planned->0 },
            )
            &&& u.planned is Some && u.planned->0.revision != index.revision && u.attempts < 2
                ==> u.on_reread(index).1 == IndexActionV::Read
            &&& u.planned is Some && u.planned->0.revision != index.revision && u.attempts >= 2
                ==> u.on_reread(index).1 == IndexActionV::Done
            &&& u.on_written(true).1 == IndexActionV::Done
            &&& u.attempts < 2 ==> u.on_written(false).1 == IndexActionV::Read
            &&& u.attempts >= 2 ==> u.on_written(false).1 == IndexActionV::Done
        }),
{
}

// --- edits of formations ---

/// Where panes of the list are marked an edit is about these, in the order of the list, and not
/// about the pane under the cursor.
pub proof fn law_edits_mean_the_marked(s: StateV, id: u32)
    requires
        exists|i: int|
            0 <= i < s.list.selectable.len() && s.list.marked.contains(
                (#[trigger] s.list.selectable[i]).pane_id,
            ),
    ensures
        s.formation_targets().contains(id) <==> s.list.marked.contains(id) && lists(s, id),
{
    let ids = s.marked_in_tree_order();
    lemma_marked_listed(s.list.selectable, s.list.marked, id);
    let i = choose|i: int|
        0 <= i < s.list.selectable.len() && s.list.marked.contains(
            (#[trigger] s.list.selectable[i]).pane_id,
        );
    lemma_marked_listed(s.list.selectable, s.list.marked, s.list.selectable[i].pane_id);
    assert(ids.contains(s.list.selectable[i].pane_id));
    assert(ids.len() > 0);
}

proof fn lemma_marked_listed(list: Seq<SelectableV>, set: Set<u32>, id: u32)
    ensures
        panes_in(list, set).contains(id) <==> set.contains(id) && exists|i: int|
            0 <= i < list.len() && (#[trigger] list[i]).pane_id == id,
    decreases list.len(),
{
    if list.len() > 0 {
        let front = list.drop_last();
        let rest = panes_in(front, set);
        let all = panes_in(list, set);
        lemma_marked_listed(front, set, id);
        assert(list[list.len() - 1] == list.last());
        assert(forall|i: int| 0 <= i < front.len() ==> front[i] == #[trigger] list[i]);
        if rest.contains(id) {
            let k = choose|k: int| 0 <= k < rest.len() && rest[k] == id;
            assert(all[k] == id);
            let i = choose|i: int| 0 <= i < front.len() && (#[trigger] front[i]).pane_id == id;
            assert(list[i].pane_id == id);
        }
        if all.contains(id) {
            let k = choose|k: int| 0 <= k < all.len() && all[k] == id;
            if k < rest.len() {
                assert(rest[k] == id);
            }
        }
        if set.contains(list.last().pane_id) {
            assert(all[rest.len() as int] == list.last().pane_id);
        }
        if set.contains(id) && exists|i: int|
            0 <= i < list.len() && (#[trigger] list[i]).pane_id == id {
            let i = choose|i: int| 0 <= i < list.len() && (#[trigger] list[i]).pane_id == id;
            if i < front.len() {
                assert(front[i].pane_id == id);
            }
        }
    }
}

/// Excluding takes the panes that are meant out of their formations and no other pane; where none
/// of them is in one, nothing happens and nobody is told.
pub proof fn law_excluding(s: StateV, p: u32)
    ensures
        ({
            let t = s.exclude_from_formation();
            let meant = s.formation_targets();
            &&& t.groups.assignments.contains_key(p) <==> s.groups.assignments.contains_key(p)
                && !meant.contains(p)
            &&& t.groups.formations.len() == s.groups.formations.len()
            &&& (forall|i: int|
                0 <= i < meant.len() ==> !s.groups.assignments.contains_key(#[trigger] meant[i]))
                ==> t == s
            &&& t.list == s.list && t.nav == s.nav
        }),
{
    let meant = s.formation_targets();
    law_leaving(s.groups, meant);
    let h = s.groups.leave(meant);
    assert(h.assignments.contains_key(p) <==> s.groups.assignments.contains_key(p)
        && !meant.contains(p));
    if !s.groups.any_assigned(meant) && meant.contains(p) {
        let i = choose|i: int| 0 <= i < meant.len() && meant[i] == p;
        assert(!s.groups.assignments.contains_key(meant[i]));
    }
}

/// Renaming starts from the name of the formation that the pane under the cursor is in; a pane
/// without one is not asked.
pub proof fn law_renaming_begins(s: StateV, id: u32, n: int)
    requires
        s.nav.search is None,
        s.nav.triage is None,
        s.list.selected < s.list.selectable.len(),
        s.list.selectable[s.list.selected as int].pane_id == id,
        s.groups.wf(),
    ensures
        !s.groups.assignments.contains_key(id) ==> s.begin_formation_rename() == s,
        s.groups.assignments.contains_key(id) && 0 <= n < s.groups.formations.len()
            && s.groups.formations[n].id == s.groups.assignments[id]
            ==> s.begin_formation_rename().nav.formation_prompt == Some(
            FormationPromptV::Name(
                s.groups.formations[n].name,
                NameTargetV::Rename(s.groups.formations[n].id),
                false,
            ),
        ),
{
    if 0 <= n < s.groups.formations.len() {
        assert forall|j: int| 0 <= j < n implies (#[trigger] s.groups.formations[j]).id
            != s.groups.formations[n].id by {}
        lemma_formation_place(s.groups.formations, s.groups.formations[n].id, n);
    }
}

// --- sessions ---

/// The session's name is that of the first session that is the current one. A name that is known
/// already changes nothing, and no name is forgotten.
pub proof fn law_session_names(s: StateV, sessions: Seq<SessionInfoV>, n: int)
    requires
        0 <= n < sessions.len(),
        sessions[n].is_current_session,
        forall|j: int| 0 <= j < n ==> !(#[trigger] sessions[j]).is_current_session,
    ensures
        StateV::name_among(sessions) == Some(sessions[n].name),
        s.session_update(StateV::name_among(sessions)).disk.session_name == Some(
            sessions[n].name,
        ),
        s.disk.session_name == Some(sessions[n].name) ==> s.session_update(
            StateV::name_among(sessions),
        ) == s,
        s.session_update(None) == s,
{
    lemma_current(sessions, n);
}

proof fn lemma_current(sessions: Seq<SessionInfoV>, n: int)
    requires
        0 <= n < sessions.len(),
        sessions[n].is_current_session,
        forall|j: int| 0 <= j < n ==> !(#[trigger] sessions[j]).is_current_session,
    ensures
        current_place(sessions) == n,
    decreases n,
{
    if n > 0 {
        assert(!sessions[0].is_current_session);
        let rest = sessions.drop_first();
        assert forall|j: int| 0 <= j < n - 1 implies !(
        #[trigger] rest[j]).is_current_session by {
            assert(rest[j] == sessions[j + 1]);
        }
        lemma_current(rest, n - 1);
    }
}

/// The index is brought up to date, and files are written, only with a store that is ready; the
/// index also needs the name of the session.
pub proof fn law_store_must_be_ready(s: StateV, rel: Seq<char>)
    ensures
        s.can_sync_index() <==> s.disk.store == StoreV::Ready && s.disk.session_name is Some,
        s.disk.store != StoreV::Ready ==> s.write_plan(rel) is None,
        s.write_plan(rel) is Some ==> inside_host(rel) == Some((s.write_plan(rel)->0).0),
        s.write_plan(rel) is Some && s.me.own_plugin_id is Some && s.disk.session_name is Some
            ==> inside_host(
            tmp_name(rel, s.me.own_plugin_id->0, s.disk.session_name->0),
        ) == Some((s.write_plan(rel)->0).1),
{
}

/// An entry of the index is sound if its id is one to twelve digits and its name is there and holds
/// no zero; an index is sound if it is of version 1 and all its entries are.
pub proof fn law_sound_entries(e: SessionEntryV, index: SessionIndexV)
    ensures
        entry_ok(e) <==> 0 < e.id.len() <= 12 && (forall|i: int|
            0 <= i < e.id.len() ==> '0' <= (#[trigger] e.id[i]) <= '9') && e.name.len() > 0
            && !e.name.contains('\0'),
        index_ok(index) ==> index.version == 1,
{
}

proof fn lemma_largest(sessions: Seq<SessionEntryV>, i: int)
    requires
        0 <= i < sessions.len(),
    ensures
        parsed(sessions[i].id, u64::MAX as nat) is Some && parsed(
            sessions[i].id,
            u64::MAX as nat,
        )->0 < 999_999_999_999 ==> parsed(sessions[i].id, u64::MAX as nat)->0 <= largest_session(
            sessions,
        ),
    decreases sessions.len(),
{
    if i < sessions.len() - 1 {
        lemma_largest(sessions.drop_last(), i);
        assert(sessions.drop_last()[i] == sessions[i]);
    }
}

/// A new id is larger than that of every session below the limit, and it is the next one.
pub proof fn law_new_ids_rise(sessions: Seq<SessionEntryV>, i: int)
    ensures
        fresh_id(sessions) == digits(largest_session(sessions) + 1),
        0 <= i < sessions.len() && parsed(sessions[i].id, u64::MAX as nat) is Some && parsed(
            sessions[i].id,
            u64::MAX as nat,
        )->0 < 999_999_999_999 ==> parsed(sessions[i].id, u64::MAX as nat)->0
            < largest_session(sessions) + 1,
        sessions.len() == 0 ==> fresh_id(sessions) == digits(1),
{
    if 0 <= i < sessions.len() {
        lemma_largest(sessions, i);
    }
}

// --- lines that cannot be read ---

/// A line of agents without the first five fields, or without the id of a pane, is passed over, and
/// a pane that is known already stays as it is known. The fields behind the fifth may be missing.
pub proof fn law_agent_lines_are_read(r: Roster, line: Seq<char>, id: u32)
    ensures
        ({
            let f = pieces(line, '\t');
            let t = r.take_line(line);
            let named = f.len() >= 5 && parsed(f[0], u32::MAX as nat) == Some(id as nat);
            &&& f.len() < 5 || parsed(f[0], u32::MAX as nat) is None ==> t == r
            &&& named && r.agents.contains_key(id) ==> t.agents == r.agents && t.cwds == r.cwds
                && t.filled == r.filled
            &&& named && !r.agents.contains_key(id) ==> t.agents.contains_key(id)
                && t.agents[id].agent == f[4] && t.agents[id].detail is None && t.filled
                == r.filled + 1 && (f[1] == "working"@ ==> t.agents[id].state
                == AgentState::Working) && (t.agents[id].turn_ended ==> f.len() >= 7)
            &&& forall|other: u32|
                !(named && other == id) && !(parsed(f[0], u32::MAX as nat) == Some(other as nat))
                    ==> (#[trigger] t.agents.contains_key(other) == r.agents.contains_key(other))
            &&& t.seq >= r.seq
        }),
{
}

/// A line of commands with fewer than four fields, or without the id of a pane, changes nothing.
/// One that can be read replaces what is known of its pane and of no other.
pub proof fn law_command_lines_are_read(s: StatusesV, line: Seq<char>, id: u32, other: u32)
    requires
        other != id,
    ensures
        ({
            let f = pieces(line, '\t');
            let t = s.take_command_line(line);
            let named = f.len() >= 4 && parsed(f[0], u32::MAX as nat) == Some(id as nat);
            &&& f.len() < 4 || parsed(f[0], u32::MAX as nat) is None ==> t == s
            &&& named ==> t.commands.contains_key(id) && t.commands[id].read == (f[2] == "1"@)
                && (f[1] == "done"@ ==> t.commands[id].state == CommandState::Done) && (f[1]
                == "working"@ ==> t.commands[id].state == CommandState::Working) && (
            t.commands.contains_key(other) == s.commands.contains_key(other)) && (
            s.commands.contains_key(other) ==> t.commands[other] == s.commands[other])
            &&& t.agents == s.agents
            &&& t.state_seq >= s.state_seq
        }),
{
    reveal_strlit("working");
    reveal_strlit("done");
    reveal_strlit("error");
    assert("working"@.len() == 7);
    assert("done"@.len() == 4);
    assert("error"@.len() == 5);
}

/// Numbers are read with zeros and a plus sign in front, up to the largest one asked for; nothing
/// else is a number.
pub proof fn law_numbers_are_read(n: nat, max: nat, s: Seq<char>)
    ensures
        n <= max ==> parsed(digits(n), max) == Some(n),
        n > max ==> parsed(digits(n), max) is None,
        n <= max ==> parsed(seq!['+'] + digits(n), max) == Some(n),
        s.len() == 0 ==> parsed(s, max) is None,
        parsed(s, max) is Some ==> parsed(s, max)->0 <= max && s.len() > 0 && (s[0] == '+'
            || '0' <= s[0] <= '9'),
{
    lemma_number_of_digits(n);
    lemma_digits_len(n, n);
    let d = digits(n);
    assert(is_digit(d[0]));
    let plus = seq!['+'] + d;
    assert(plus.drop_first() =~= d);
    if parsed(s, max) is Some && s[0] != '+' {
        assert(is_digit(s[0]));
    }
}

/// What stands in the place of a pane whose text cannot be had.
pub proof fn law_missing_snapshot(title: Seq<char>)
    ensures
        snapshot_text(title, None) == title + seq!['\n'] + "(scrollback unavailable)"@,
{
    assert(title.push('\n') =~= title + seq!['\n']);
}

/// The hash of a session's name: it starts from one constant, and each byte is mixed in and
/// multiplied by another, in 64 bits.
pub proof fn law_hash_steps(bytes: Seq<u8>, b: u8)
    ensures
        fnv(Seq::empty()) == 0xcbf2_9ce4_8422_2325,
        fnv(bytes.push(b)) == ((fnv(bytes) ^ (b as u64)) * 0x0000_0100_0000_01b3)
            % 0x1_0000_0000_0000_0000,
{
    assert(bytes.push(b).drop_last() =~= bytes);
}

/// A number in hexadecimal: the last digit is the remainder by sixteen, in the digits from 0 to 9
/// and the letters from a to f.
pub proof fn law_hex_digits(n: nat, len: nat)
    requires
        len > 0,
    ensures
        hex(n, len).len() == len,
        hex(n, len).drop_last() == hex(n / 16, (len - 1) as nat),
        n % 16 < 10 ==> hex(n, len).last() as nat == 48 + n % 16,
        n % 16 >= 10 ==> hex(n, len).last() as nat == 97 + n % 16 - 10,
{
    lemma_hex_len(n, len);
    assert(hex(n, len).drop_last() =~= hex(n / 16, (len - 1) as nat));
}

/// A text of ASCII characters is lowered letter by letter: capitals become small, everything else
/// stays.
pub proof fn law_lowered_ascii(s: Seq<char>, i: int)
    requires
        forall|j: int| 0 <= j < s.len() ==> (#[trigger] s[j]) <= '\u{7f}',
        0 <= i < s.len(),
    ensures
        lowered(s).len() == s.len(),
        'A' <= s[i] <= 'Z' ==> lowered(s)[i] as nat == s[i] as nat + 32,
        !('A' <= s[i] <= 'Z') ==> lowered(s)[i] == s[i],
{
    assert(ascii(s));
}

} // verus!
