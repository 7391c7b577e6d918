//! States on the wire: one line for each pane, its fields separated by tabs.

use vstd::prelude::*;

use crate::agent::{law_state_names, AgentInfo, AgentInfoV, AgentState};
use crate::command::{law_command_names, CommandInfo, CommandState};
use crate::ids::{ascending, group_views, lemma_ascending, map_keys, views};
use crate::read::terminal_ids;
use crate::state::{State, StateV, StatusesV};
use crate::text::{
    block, decimal, digits, join, joined, lemma_digits_without, lemma_joined_end,
    lemma_joined_without, lemma_lines_of_block, lemma_parsed_digits, lemma_pieces_of_joined, lines, lines_of, one_line,
    parse_u32, parse_u64, parse_usize, parsed, pieces, same, split,
};

verus! {

broadcast use group_views;

/// A yes or no as a digit.
pub open spec fn flag(b: bool) -> Seq<char> {
    if b {
        "1"@
    } else {
        "0"@
    }
}

fn spell_flag(b: bool) -> (r: String)
    ensures
        r@ == flag(b),
{
    if b {
        "1".to_owned()
    } else {
        "0".to_owned()
    }
}

/// The number in a field; 0 where there is none.
pub open spec fn number_in(s: Seq<char>, max: nat) -> nat {
    match parsed(s, max) {
        Some(n) => n,
        None => 0,
    }
}

pub open spec fn larger(a: u64, b: u64) -> u64 {
    if a < b {
        b
    } else {
        a
    }
}

// --- commands ---

pub open spec fn command_fields(id: u32, info: CommandInfo) -> Seq<Seq<char>> {
    seq![
        digits(id as nat),
        info.state.like_agent().name(),
        flag(info.read),
        digits(info.state_change_seq as nat),
    ]
}

pub open spec fn command_line(id: u32, info: CommandInfo) -> Seq<char> {
    joined(command_fields(id, info), "\t"@)
}

/// The lines of those of the panes that have a command.
pub open spec fn command_lines(commands: Map<u32, CommandInfo>, ids: Seq<u32>) -> Seq<Seq<char>>
    decreases ids.len(),
{
    if ids.len() == 0 {
        Seq::empty()
    } else {
        let front = command_lines(commands, ids.drop_last());
        if commands.contains_key(ids.last()) {
            front.push(command_line(ids.last(), commands[ids.last()]))
        } else {
            front
        }
    }
}

/// The commands of these panes as a message.
pub open spec fn command_text(commands: Map<u32, CommandInfo>, ids: Seq<u32>) -> Seq<char> {
    block(command_lines(commands, ids))
}

/// The line names a pane and its command.
pub open spec fn is_command_line(line: Seq<char>) -> bool {
    let f = pieces(line, '\t');
    f.len() >= 4 && parsed(f[0], u32::MAX as nat) is Some
}

/// How many of the lines name a pane and its command.
pub open spec fn command_line_count(text: Seq<Seq<char>>) -> nat
    decreases text.len(),
{
    if text.len() == 0 {
        0
    } else if is_command_line(text.last()) {
        command_line_count(text.drop_last()) + 1
    } else {
        command_line_count(text.drop_last())
    }
}

impl StatusesV {
    /// One line of a message is taken in: the sender knows better. Lines that name no pane are
    /// passed over.
    pub open spec fn take_command_line(self, line: Seq<char>) -> StatusesV {
        let f = pieces(line, '\t');
        if is_command_line(line) {
            let seq = number_in(f[3], u64::MAX as nat) as u64;
            StatusesV {
                state_seq: larger(self.state_seq, seq),
                commands: self.commands.insert(
                    parsed(f[0], u32::MAX as nat)->0 as u32,
                    CommandInfo {
                        state: CommandState::named(f[1]),
                        state_change_seq: seq,
                        read: f[2] == "1"@,
                        awaiting_refocus: false,
                    },
                ),
                ..self
            }
        } else {
            self
        }
    }

    pub open spec fn take_command_lines(self, text: Seq<Seq<char>>) -> StatusesV
        decreases text.len(),
    {
        if text.len() == 0 {
            self
        } else {
            self.take_command_lines(text.drop_last()).take_command_line(text.last())
        }
    }

    /// All commands as a message.
    pub open spec fn command_dump(self) -> Seq<char> {
        command_text(self.commands, ascending(self.commands.dom()))
    }
}

impl StateV {
    pub open spec fn apply_command_dump(self, raw: Seq<char>) -> StateV {
        self.with_status(self.status.take_command_lines(lines_of(raw)))
    }
}

fn spell_fields(fields: &Vec<String>) -> (r: String)
    ensures
        r@ == joined(views(fields@), "\t"@).push('\n'),
{
    let mut line = join(fields, "\t");
    line.push('\n');
    line
}

fn spell_command(id: u32, info: &CommandInfo) -> (r: String)
    ensures
        r@ == command_line(id, *info).push('\n'),
{
    let mut fields: Vec<String> = Vec::new();
    fields.push(decimal(id as u128));
    fields.push(info.state.as_str().to_owned());
    fields.push(spell_flag(info.read));
    fields.push(decimal(info.state_change_seq as u128));
    assert(views(fields@) =~= command_fields(id, *info));
    spell_fields(&fields)
}

impl State {
    /// The commands of these panes as a message.
    pub fn command_lines(&self, ids: &Vec<u32>) -> (r: String)
        ensures
            r@ == command_text(self@.status.commands, ids@),
    {
        let ghost commands = self@.status.commands;
        let mut out = String::new();
        let mut i: usize = 0;
        assert(ids@.take(0) =~= Seq::empty());
        while i < ids.len()
            invariant
                i <= ids.len(),
                commands == self@.status.commands,
                out@ == command_text(commands, ids@.take(i as int)),
            decreases ids.len() - i,
        {
            let ghost upto = ids@.take(i + 1);
            let ghost front = command_lines(commands, ids@.take(i as int));
            assert(upto.drop_last() =~= ids@.take(i as int));
            if let Some(info) = self.status.commands.get(&ids[i]) {
                let line = spell_command(ids[i], info);
                out.push_str(line.as_str());
                assert(front.push(command_line(ids@[i as int], *info)).drop_last() =~= front);
            }
            i += 1;
        }
        assert(ids@.take(i as int) =~= ids@);
        out
    }

    /// All commands as a message.
    pub fn command_dump(&self) -> (r: String)
        ensures
            r@ == self@.status.command_dump(),
    {
        let ids = map_keys(&self.status.commands);
        self.command_lines(&ids)
    }

    fn take_command_line(&mut self, line: &str) -> (r: bool)
        ensures
            final(self)@ == old(self)@.with_status(old(self)@.status.take_command_line(line@)),
            r == is_command_line(line@),
    {
        let fields = split(line, '\t');
        let ghost f = pieces(line@, '\t');
        if fields.len() < 4 {
            return false;
        }
        assert(f[0] == fields[0]@ && f[1] == fields[1]@ && f[2] == fields[2]@ && f[3]
            == fields[3]@);
        let pane_id = match parse_u32(fields[0].as_str()) {
            Some(pane_id) => pane_id,
            None => {
                return false;
            },
        };
        let seq: u64 = match parse_u64(fields[3].as_str()) {
            Some(seq) => seq,
            None => 0,
        };
        if self.status.state_seq < seq {
            self.status.state_seq = seq;
        }
        let info = CommandInfo {
            state: CommandState::from_str(fields[1].as_str()),
            state_change_seq: seq,
            read: same(fields[2].as_str(), "1"),
            awaiting_refocus: false,
        };
        self.status.commands.insert(pane_id, info);
        true
    }

    /// Takes in a message of commands. Returns whether it held any.
    pub fn apply_command_dump(&mut self, raw: &str) -> (r: bool)
        ensures
            final(self)@ == old(self)@.apply_command_dump(raw@),
            r == (command_line_count(lines_of(raw@)) > 0),
    {
        let text = lines(raw);
        let ghost v = views(text@);
        let ghost start = self@;
        let mut changed = false;
        let mut i: usize = 0;
        assert(v.take(0) =~= Seq::empty());
        while i < text.len()
            invariant
                i <= text.len(),
                v == views(text@),
                self@ == start.with_status(start.status.take_command_lines(v.take(i as int))),
                changed == (command_line_count(v.take(i as int)) > 0),
            decreases text.len() - i,
        {
            assert(v.take(i + 1).drop_last() =~= v.take(i as int));
            assert(v.take(i + 1).last() == text[i as int]@);
            if self.take_command_line(text[i].as_str()) {
                changed = true;
            }
            i += 1;
        }
        assert(v.take(i as int) =~= v);
        changed
    }

    pub fn handle_command_state_pipe(&mut self, payload: Option<&str>) -> (r: bool)
        ensures
            payload is None ==> final(self)@ == old(self)@ && !r,
            payload is Some ==> final(self)@ == old(self)@.apply_command_dump(payload->0@) && r
                == (command_line_count(lines_of(payload->0@)) > 0),
    {
        match payload {
            Some(raw) => self.apply_command_dump(raw),
            None => false,
        }
    }
}

// --- agents ---

/// The working directory of a pane; empty where none is known.
pub open spec fn cwd_or_empty(cwds: Map<u32, Seq<char>>, id: u32) -> Seq<char> {
    if cwds.contains_key(id) {
        cwds[id]
    } else {
        Seq::empty()
    }
}

pub open spec fn agent_fields(id: u32, info: AgentInfoV, cwd: Seq<char>) -> Seq<Seq<char>> {
    seq![
        digits(id as nat),
        info.state.name(),
        digits(info.subagents as nat),
        digits(info.open_tasks as nat),
        info.agent,
        cwd,
        flag(info.turn_ended),
        digits(info.state_change_seq as nat),
    ]
}

pub open spec fn agent_line(id: u32, info: AgentInfoV, cwd: Seq<char>) -> Seq<char> {
    joined(agent_fields(id, info, cwd), "\t"@)
}

pub open spec fn agent_lines(
    agents: Map<u32, AgentInfoV>,
    cwds: Map<u32, Seq<char>>,
    ids: Seq<u32>,
) -> Seq<Seq<char>> {
    ids.map_values(|id: u32| agent_line(id, agents[id], cwd_or_empty(cwds, id)))
}

/// Agents and working directories, as a receiver puts them together.
pub struct Roster {
    pub agents: Map<u32, AgentInfoV>,
    pub cwds: Map<u32, Seq<char>>,
    pub seq: u64,
    /// How many panes were filled in.
    pub filled: nat,
}

impl Roster {
    /// One line is taken in. Only panes that are not known yet are filled in: what is known
    /// is as fresh, and taking it over could undo a read.
    pub open spec fn take_line(self, line: Seq<char>) -> Roster {
        let f = pieces(line, '\t');
        if f.len() < 5 || parsed(f[0], u32::MAX as nat) is None {
            self
        } else {
            let id = parsed(f[0], u32::MAX as nat)->0 as u32;
            let change = if f.len() >= 8 {
                number_in(f[7], u64::MAX as nat) as u64
            } else {
                0
            };
            let seq = larger(self.seq, change);
            if self.agents.contains_key(id) {
                Roster { seq, ..self }
            } else {
                Roster {
                    seq,
                    filled: self.filled + 1,
                    agents: self.agents.insert(
                        id,
                        AgentInfoV {
                            state: AgentState::named(f[1]),
                            agent: f[4],
                            subagents: number_in(f[2], usize::MAX as nat) as usize,
                            open_tasks: number_in(f[3], usize::MAX as nat) as usize,
                            turn_ended: f.len() >= 7 && f[6] == "1"@,
                            detail: None,
                            state_change_seq: change,
                        },
                    ),
                    cwds: if f.len() >= 6 && f[5].len() > 0 {
                        self.cwds.insert(id, f[5])
                    } else {
                        self.cwds
                    },
                }
            }
        }
    }

    pub open spec fn take_lines(self, text: Seq<Seq<char>>) -> Roster
        decreases text.len(),
    {
        if text.len() == 0 {
            self
        } else {
            self.take_lines(text.drop_last()).take_line(text.last())
        }
    }
}

impl StateV {
    /// All agents as a message.
    pub open spec fn state_dump(self) -> Seq<char> {
        block(
            agent_lines(
                self.status.agents,
                self.list.pane_cwds,
                ascending(self.status.agents.dom()),
            ),
        )
    }

    pub open spec fn roster(self) -> Roster {
        Roster {
            agents: self.status.agents,
            cwds: self.list.pane_cwds,
            seq: self.status.state_seq,
            filled: 0,
        }
    }

    pub open spec fn with_roster(self, r: Roster) -> StateV {
        self.with_cwds(r.cwds).with_status(
            StatusesV { agents: r.agents, state_seq: r.seq, ..self.status },
        )
    }

    /// A message of agents is taken in. On screen, panes that are gone are dropped again at
    /// once; an instance off screen has no fresh list of panes to tell.
    pub open spec fn apply_state_dump(self, raw: Seq<char>) -> (StateV, bool) {
        let r = self.roster().take_lines(lines_of(raw));
        let s = self.with_roster(r);
        if r.filled == 0 {
            (s, false)
        } else if self.me.visible {
            (s.prune_stale_agents(), true)
        } else {
            (s, true)
        }
    }
}

impl State {
    fn spell_agent(&self, id: u32) -> (r: String)
        requires
            self@.status.agents.contains_key(id),
        ensures
            r@ == agent_line(
                id,
                self@.status.agents[id],
                cwd_or_empty(self@.list.pane_cwds, id),
            ).push('\n'),
    {
        let mut fields: Vec<String> = Vec::new();
        if let Some(info) = self.status.agents.get(&id) {
            fields.push(decimal(id as u128));
            fields.push(info.state.as_str().to_owned());
            fields.push(decimal(info.subagents as u128));
            fields.push(decimal(info.open_tasks as u128));
            fields.push(info.agent.clone());
            let cwd = match self.list.pane_cwds.get(&id) {
                Some(cwd) => cwd.clone(),
                None => String::new(),
            };
            fields.push(cwd);
            fields.push(spell_flag(info.turn_ended));
            fields.push(decimal(info.state_change_seq as u128));
        }
        assert(views(fields@) =~= agent_fields(
            id,
            self@.status.agents[id],
            cwd_or_empty(self@.list.pane_cwds, id),
        ));
        spell_fields(&fields)
    }

    /// All agents as a message.
    pub fn state_dump(&self) -> (r: String)
        ensures
            r@ == self@.state_dump(),
    {
        let ids = map_keys(&self.status.agents);
        let ghost agents = self@.status.agents;
        let ghost cwds = self@.list.pane_cwds;
        let mut out = String::new();
        let mut i: usize = 0;
        assert(agent_lines(agents, cwds, ids@.take(0)) =~= Seq::empty());
        while i < ids.len()
            invariant
                i <= ids.len(),
                agents == self@.status.agents,
                cwds == self@.list.pane_cwds,
                ids@.to_set() == agents.dom(),
                out@ == block(agent_lines(agents, cwds, ids@.take(i as int))),
            decreases ids.len() - i,
        {
            let id = ids[i];
            assert(ids@.to_set().contains(id));
            let line = self.spell_agent(id);
            out.push_str(line.as_str());
            let ghost front = agent_lines(agents, cwds, ids@.take(i as int));
            let ghost upto = agent_lines(agents, cwds, ids@.take(i + 1));
            assert(upto.drop_last() =~= front);
            i += 1;
        }
        assert(ids@.take(i as int) =~= ids@);
        out
    }

    fn take_agent_line(&mut self, line: &str) -> (r: bool)
        ensures
            final(self)@ == old(self)@.with_roster(old(self)@.roster().take_line(line@)),
            old(self)@.roster().take_line(line@).filled == (if r {
                1nat
            } else {
                0nat
            }),
    {
        let fields = split(line, '\t');
        let ghost f = pieces(line@, '\t');
        if fields.len() < 5 {
            return false;
        }
        assert(forall|i: int| 0 <= i < f.len() ==> f[i] == fields[i]@);
        let pane_id = match parse_u32(fields[0].as_str()) {
            Some(pane_id) => pane_id,
            None => {
                return false;
            },
        };
        let mut change: u64 = 0;
        if fields.len() >= 8 {
            if let Some(seq) = parse_u64(fields[7].as_str()) {
                change = seq;
            }
        }
        if self.status.state_seq < change {
            self.status.state_seq = change;
        }
        if self.status.agents.contains_key(&pane_id) {
            return false;
        }
        let subagents: usize = match parse_usize(fields[2].as_str()) {
            Some(n) => n,
            None => 0,
        };
        let open_tasks: usize = match parse_usize(fields[3].as_str()) {
            Some(n) => n,
            None => 0,
        };
        let info = AgentInfo {
            state: AgentState::from_str(fields[1].as_str()),
            agent: fields[4].clone(),
            subagents,
            open_tasks,
            turn_ended: fields.len() >= 7 && same(fields[6].as_str(), "1"),
            detail: None,
            state_change_seq: change,
        };
        self.status.agents.insert(pane_id, info);
        if fields.len() >= 6 && !fields[5].as_str().is_empty() {
            self.list.pane_cwds.insert(pane_id, fields[5].clone());
        }
        true
    }

    /// Takes in a message of agents. Returns whether to draw.
    pub fn apply_state_dump(&mut self, raw: &str) -> (r: bool)
        ensures
            (final(self)@, r) == old(self)@.apply_state_dump(raw@),
    {
        let text = lines(raw);
        let ghost v = views(text@);
        let ghost start = self@;
        let mut filled = false;
        let mut i: usize = 0;
        assert(v.take(0) =~= Seq::empty());
        while i < text.len()
            invariant
                i <= text.len(),
                v == views(text@),
                self@ == start.with_roster(start.roster().take_lines(v.take(i as int))),
                filled == (start.roster().take_lines(v.take(i as int)).filled > 0),
            decreases text.len() - i,
        {
            assert(v.take(i + 1).drop_last() =~= v.take(i as int));
            assert(v.take(i + 1).last() == text[i as int]@);
            let ghost before = start.roster().take_lines(v.take(i as int));
            if self.take_agent_line(text[i].as_str()) {
                filled = true;
            }
            i += 1;
        }
        assert(v.take(i as int) =~= v);
        if !filled {
            return false;
        }
        if self.me.visible {
            self.prune_stale_agents();
        }
        true
    }
}

// --- laws ---

proof fn lemma_plain_fields(c: char)
    requires
        c == '\t' || c == '\n' || c == '\r',
    ensures
        forall|s: AgentState| !(#[trigger] s.name()).contains(c),
        forall|b: bool| !(#[trigger] flag(b)).contains(c),
        forall|n: nat| !(#[trigger] digits(n)).contains(c),
{
    reveal_strlit("idle");
    reveal_strlit("working");
    reveal_strlit("blocked");
    reveal_strlit("done");
    reveal_strlit("error");
    reveal_strlit("0");
    reveal_strlit("1");
    assert forall|n: nat| !(#[trigger] digits(n)).contains(c) by {
        lemma_digits_without(n, c);
    }
}

proof fn lemma_tab()
    ensures
        "\t"@ == seq!['\t'],
{
    reveal_strlit("\t");
    assert("\t"@ =~= seq!['\t']);
}

proof fn lemma_flag(b: bool)
    ensures
        (flag(b) == "1"@) == b,
{
    reveal_strlit("0");
    reveal_strlit("1");
    assert("0"@[0] == '0');
    assert("1"@[0] == '1');
}

/// A line of a command gives the command back, but for the focus that it waits for.
pub proof fn lemma_command_line(s: StatusesV, id: u32, info: CommandInfo)
    ensures
        one_line(command_line(id, info)),
        is_command_line(command_line(id, info)),
        s.take_command_line(command_line(id, info)) == (StatusesV {
            state_seq: larger(s.state_seq, info.state_change_seq),
            commands: s.commands.insert(id, CommandInfo { awaiting_refocus: false, ..info }),
            ..s
        }),
{
    let f = command_fields(id, info);
    lemma_plain_fields('\t');
    lemma_plain_fields('\n');
    lemma_plain_fields('\r');
    lemma_tab();
    lemma_joined_without(f, "\t"@, '\n');
    lemma_joined_end(f, "\t"@, '\r');
    lemma_pieces_of_joined(f, '\t');
    lemma_parsed_digits(id as nat, u32::MAX as nat);
    lemma_parsed_digits(info.state_change_seq as nat, u64::MAX as nat);
    law_command_names(info.state);
    lemma_flag(info.read);
}

proof fn lemma_take_commands(t: StatusesV, commands: Map<u32, CommandInfo>, ids: Seq<u32>)
    requires
        forall|i: int| 0 <= i < ids.len() ==> commands.contains_key(#[trigger] ids[i]),
    ensures
        command_lines(commands, ids).len() == ids.len(),
        forall|i: int|
            0 <= i < ids.len() ==> one_line(#[trigger] command_lines(commands, ids)[i]),
        ({
            let r = t.take_command_lines(command_lines(commands, ids));
            &&& forall|i: int|
                0 <= i < ids.len() ==> r.commands.contains_key(#[trigger] ids[i])
                    && r.commands[ids[i]] == (CommandInfo {
                    awaiting_refocus: false,
                    ..commands[ids[i]]
                })
            &&& forall|id: u32|
                !ids.contains(id) ==> #[trigger] r.commands.contains_key(id)
                    == t.commands.contains_key(id) && (t.commands.contains_key(id)
                    ==> r.commands[id] == t.commands[id])
            &&& r.agents == t.agents
            &&& r.pending_reads == t.pending_reads
            &&& r.state_seq >= t.state_seq
            &&& forall|i: int|
                0 <= i < ids.len() ==> r.state_seq >= commands[#[trigger] ids[i]].state_change_seq
            &&& (forall|i: int|
                0 <= i < ids.len() ==> t.state_seq
                    >= commands[#[trigger] ids[i]].state_change_seq) ==> r.state_seq == t.state_seq
        }),
    decreases ids.len(),
{
    if ids.len() > 0 {
        let front = ids.drop_last();
        let id = ids.last();
        assert(ids[ids.len() - 1] == id);
        assert forall|i: int| 0 <= i < front.len() implies commands.contains_key(
            #[trigger] front[i],
        ) by {
            assert(front[i] == ids[i]);
        }
        lemma_take_commands(t, commands, front);
        let fl = command_lines(commands, front);
        let all = command_lines(commands, ids);
        assert(all.drop_last() =~= fl);
        let before = t.take_command_lines(fl);
        let r = t.take_command_lines(all);
        lemma_command_line(before, id, commands[id]);
        assert(r == before.take_command_line(command_line(id, commands[id])));
        assert forall|i: int| 0 <= i < ids.len() implies one_line(#[trigger] all[i]) by {
            if i < front.len() {
                assert(all[i] == fl[i]);
                assert(one_line(fl[i]));
            }
        }
        assert forall|i: int| 0 <= i < ids.len() implies r.commands.contains_key(#[trigger] ids[i])
            && r.commands[ids[i]] == (CommandInfo { awaiting_refocus: false, ..commands[ids[i]] })
            && r.state_seq >= commands[ids[i]].state_change_seq by {
            if i < front.len() {
                assert(front[i] == ids[i]);
            }
        }
        assert forall|x: u32| !ids.contains(x) implies #[trigger] r.commands.contains_key(x)
            == t.commands.contains_key(x) && (t.commands.contains_key(x) ==> r.commands[x]
            == t.commands[x]) by {
            if front.contains(x) {
                let k = choose|k: int| 0 <= k < front.len() && front[k] == x;
                assert(ids[k] == x);
            }
            assert(!front.contains(x));
            assert(before.commands.contains_key(x) == t.commands.contains_key(x));
            assert(t.commands.contains_key(x) ==> before.commands[x] == t.commands[x]);
            assert(x != id);
            assert(r.commands == before.commands.insert(
                id,
                CommandInfo { awaiting_refocus: false, ..commands[id] },
            ));
        }
        if forall|i: int|
            0 <= i < ids.len() ==> t.state_seq >= commands[#[trigger] ids[i]].state_change_seq {
            assert forall|i: int| 0 <= i < front.len() implies t.state_seq
                >= commands[#[trigger] front[i]].state_change_seq by {
                assert(front[i] == ids[i]);
            }
            assert(before.state_seq == t.state_seq);
            assert(t.state_seq >= commands[ids[ids.len() - 1]].state_change_seq);
        }
    }
}

/// A receiver of all commands knows every one of them as the sender does, but for the focus
/// that only the sender watches; what the sender does not know it keeps. Changes that it sees
/// from then on count as later. A second message like the first one changes nothing.
pub proof fn law_command_dump_round_trip(s: StateV, t: StateV, id: u32)
    requires
        s.status.commands.dom().finite(),
    ensures
        s.status.commands.contains_key(id) ==> {
            let r = t.apply_command_dump(s.status.command_dump()).status;
            r.commands.contains_key(id) && r.commands[id] == (CommandInfo {
                awaiting_refocus: false,
                ..s.status.commands[id]
            }) && r.state_seq >= s.status.commands[id].state_change_seq
        },
        !s.status.commands.contains_key(id) ==> {
            let r = t.apply_command_dump(s.status.command_dump()).status;
            r.commands.contains_key(id) == t.status.commands.contains_key(id) && (
            t.status.commands.contains_key(id) ==> r.commands[id] == t.status.commands[id])
        },
        t.apply_command_dump(s.status.command_dump()).status.agents == t.status.agents,
        ({
            let r = t.apply_command_dump(s.status.command_dump());
            r.apply_command_dump(s.status.command_dump()) == r
        }),
{
    let ids = ascending(s.status.commands.dom());
    lemma_ascending(s.status.commands.dom());
    assert forall|i: int| 0 <= i < ids.len() implies s.status.commands.contains_key(
        #[trigger] ids[i],
    ) by {
        assert(ids.to_set().contains(ids[i]));
    }
    lemma_take_commands(t.status, s.status.commands, ids);
    lemma_lines_of_block(command_lines(s.status.commands, ids));
    let r = t.status.take_command_lines(command_lines(s.status.commands, ids));
    assert(t.apply_command_dump(s.status.command_dump()).status == r);
    lemma_take_commands(r, s.status.commands, ids);
    let again = r.take_command_lines(command_lines(s.status.commands, ids));
    assert forall|x: u32| #[trigger] again.commands.contains_key(x) == r.commands.contains_key(x)
        && (r.commands.contains_key(x) ==> again.commands[x] == r.commands[x]) by {
        if ids.contains(x) {
            let k = choose|k: int| 0 <= k < ids.len() && ids[k] == x;
            assert(r.commands.contains_key(ids[k]) && again.commands.contains_key(ids[k]));
        }
    }
    assert(again.commands =~= r.commands);
    assert(again == r);
    if s.status.commands.contains_key(id) {
        assert(ids.to_set().contains(id));
        assert(ids.contains(id));
        let k = choose|k: int| 0 <= k < ids.len() && ids[k] == id;
        assert(r.commands.contains_key(ids[k]));
    } else {
        assert(!ids.to_set().contains(id));
        assert(!ids.contains(id));
        assert(r.commands.contains_key(id) == t.status.commands.contains_key(id));
    }
}

/// A text that fits into a field.
pub open spec fn field_text(s: Seq<char>) -> bool {
    !s.contains('\t') && !s.contains('\n')
}

proof fn lemma_agent_line(r: Roster, id: u32, info: AgentInfoV, cwd: Seq<char>)
    requires
        field_text(info.agent),
        field_text(cwd),
    ensures
        one_line(agent_line(id, info, cwd)),
        r.agents.contains_key(id) ==> r.take_line(agent_line(id, info, cwd)) == (Roster {
            seq: larger(r.seq, info.state_change_seq),
            ..r
        }),
        !r.agents.contains_key(id) ==> r.take_line(agent_line(id, info, cwd)) == (Roster {
            seq: larger(r.seq, info.state_change_seq),
            filled: r.filled + 1,
            agents: r.agents.insert(id, AgentInfoV { detail: None, ..info }),
            cwds: if cwd.len() > 0 {
                r.cwds.insert(id, cwd)
            } else {
                r.cwds
            },
        }),
{
    let f = agent_fields(id, info, cwd);
    lemma_plain_fields('\t');
    lemma_plain_fields('\n');
    lemma_plain_fields('\r');
    lemma_tab();
    lemma_joined_without(f, "\t"@, '\n');
    lemma_joined_end(f, "\t"@, '\r');
    lemma_pieces_of_joined(f, '\t');
    lemma_parsed_digits(id as nat, u32::MAX as nat);
    lemma_parsed_digits(info.subagents as nat, usize::MAX as nat);
    lemma_parsed_digits(info.open_tasks as nat, usize::MAX as nat);
    lemma_parsed_digits(info.state_change_seq as nat, u64::MAX as nat);
    law_state_names(info.state);
    lemma_flag(info.turn_ended);
}

/// The receiver takes over the working directory of a pane: it hears of the pane for the
/// first time, and a directory is told.
pub open spec fn arrives(t: Roster, cwds: Map<u32, Seq<char>>, ids: Seq<u32>, id: u32) -> bool {
    !t.agents.contains_key(id) && ids.contains(id) && cwd_or_empty(cwds, id).len() > 0
}

proof fn lemma_take_agents(
    t: Roster,
    agents: Map<u32, AgentInfoV>,
    cwds: Map<u32, Seq<char>>,
    ids: Seq<u32>,
)
    requires
        forall|i: int|
            0 <= i < ids.len() ==> field_text(agents[#[trigger] ids[i]].agent) && field_text(
                cwd_or_empty(cwds, ids[i]),
            ),
    ensures
        forall|i: int|
            0 <= i < ids.len() ==> one_line(#[trigger] agent_lines(agents, cwds, ids)[i]),
        ({
            let r = t.take_lines(agent_lines(agents, cwds, ids));
            &&& forall|id: u32| #[trigger]
                r.agents.contains_key(id) == (t.agents.contains_key(id) || ids.contains(id))
            &&& forall|id: u32| #[trigger]
                r.agents.contains_key(id) ==> r.agents[id] == if t.agents.contains_key(id) {
                    t.agents[id]
                } else {
                    AgentInfoV { detail: None, ..agents[id] }
                }
            &&& forall|id: u32| #[trigger]
                r.cwds.contains_key(id) == (t.cwds.contains_key(id) || arrives(t, cwds, ids, id))
            &&& forall|id: u32| #[trigger]
                r.cwds.contains_key(id) ==> r.cwds[id] == if arrives(t, cwds, ids, id) {
                    cwds[id]
                } else {
                    t.cwds[id]
                }
            &&& forall|i: int|
                0 <= i < ids.len() ==> r.seq >= agents[#[trigger] ids[i]].state_change_seq
            &&& (forall|i: int|
                0 <= i < ids.len() ==> t.seq >= agents[#[trigger] ids[i]].state_change_seq)
                ==> r.seq == t.seq
            &&& r.filled >= t.filled
            &&& r.filled == t.filled <==> (forall|i: int|
                0 <= i < ids.len() ==> t.agents.contains_key(#[trigger] ids[i]))
        }),
    decreases ids.len(),
{
    let r = t.take_lines(agent_lines(agents, cwds, ids));
    if ids.len() == 0 {
        assert(r == t);
        assert(forall|id: u32| !ids.contains(id));
    } else {
        let front = ids.drop_last();
        let id = ids.last();
        assert(ids[ids.len() - 1] == id);
        assert forall|i: int| 0 <= i < front.len() implies field_text(
            agents[#[trigger] front[i]].agent,
        ) && field_text(cwd_or_empty(cwds, front[i])) by {
            assert(front[i] == ids[i]);
        }
        lemma_take_agents(t, agents, cwds, front);
        let fl = agent_lines(agents, cwds, front);
        let all = agent_lines(agents, cwds, ids);
        assert(all.drop_last() =~= fl);
        let before = t.take_lines(fl);
        lemma_agent_line(before, id, agents[id], cwd_or_empty(cwds, id));
        assert(r == before.take_line(agent_line(id, agents[id], cwd_or_empty(cwds, id))));
        assert forall|i: int| 0 <= i < ids.len() implies one_line(#[trigger] all[i]) by {
            if i < front.len() {
                assert(all[i] == fl[i]);
                assert(one_line(fl[i]));
            }
        }
        assert forall|x: u32| #[trigger] ids.contains(x) == (front.contains(x) || x == id) by {
            if front.contains(x) {
                let k = choose|k: int| 0 <= k < front.len() && front[k] == x;
                assert(ids[k] == x);
            }
            if ids.contains(x) {
                let k = choose|k: int| 0 <= k < ids.len() && ids[k] == x;
                if k < front.len() {
                    assert(front[k] == x);
                }
            }
        }
        assert(before.agents.contains_key(id) == (t.agents.contains_key(id) || front.contains(id)));
        assert forall|x: u32| #[trigger] arrives(t, cwds, ids, x) == (arrives(t, cwds, front, x) || (
        x == id && arrives(t, cwds, ids, id))) by {
            assert(ids.contains(x) == (front.contains(x) || x == id));
        }
        assert(ids.contains(id));
        assert forall|x: u32| #[trigger] r.cwds.contains_key(x) == (t.cwds.contains_key(x)
            || arrives(t, cwds, ids, x)) by {
            assert(before.cwds.contains_key(x) == (t.cwds.contains_key(x) || arrives(
                t,
                cwds,
                front,
                x,
            )));
        }
        assert forall|x: u32| #[trigger] r.cwds.contains_key(x) implies r.cwds[x] == if arrives(
            t,
            cwds,
            ids,
            x,
        ) {
            cwds[x]
        } else {
            t.cwds[x]
        } by {
            assert(before.cwds.contains_key(x) == (t.cwds.contains_key(x) || arrives(
                t,
                cwds,
                front,
                x,
            )));
        }
        assert forall|x: u32| #[trigger] r.agents.contains_key(x) == (t.agents.contains_key(x)
            || ids.contains(x)) by {
            assert(before.agents.contains_key(x) == (t.agents.contains_key(x) || front.contains(
                x,
            )));
        }
        assert forall|x: u32| #[trigger] r.agents.contains_key(x) implies r.agents[x]
            == if t.agents.contains_key(x) {
            t.agents[x]
        } else {
            AgentInfoV { detail: None, ..agents[x] }
        } by {
            assert(before.agents.contains_key(x) == (t.agents.contains_key(x) || front.contains(
                x,
            )));
        }
        assert forall|i: int| 0 <= i < ids.len() implies r.seq
            >= agents[#[trigger] ids[i]].state_change_seq by {
            if i < front.len() {
                assert(front[i] == ids[i]);
            }
        }
        if forall|i: int|
            0 <= i < ids.len() ==> t.seq >= agents[#[trigger] ids[i]].state_change_seq {
            assert forall|i: int| 0 <= i < front.len() implies t.seq
                >= agents[#[trigger] front[i]].state_change_seq by {
                assert(front[i] == ids[i]);
            }
            assert(t.seq >= agents[ids[ids.len() - 1]].state_change_seq);
        }
        if forall|i: int| 0 <= i < ids.len() ==> t.agents.contains_key(#[trigger] ids[i]) {
            assert forall|i: int| 0 <= i < front.len() implies t.agents.contains_key(
                #[trigger] front[i],
            ) by {
                assert(front[i] == ids[i]);
            }
            assert(t.agents.contains_key(ids[ids.len() - 1]));
        }
        if r.filled == t.filled {
            assert forall|i: int| 0 <= i < ids.len() implies t.agents.contains_key(
                #[trigger] ids[i],
            ) by {
                if i < front.len() {
                    assert(t.agents.contains_key(front[i]));
                } else if front.contains(id) {
                    let k = choose|k: int| 0 <= k < front.len() && front[k] == id;
                    assert(t.agents.contains_key(front[k]));
                }
            }
        }
    }
}

impl StateV {
    /// The pane is not known to be gone.
    pub open spec fn may_show(self, id: u32) -> bool {
        self.me.visible && self.list.panes is Some ==> terminal_ids(
            self.list.panes->0.flat(),
        ).contains(id)
    }
}

/// A newcomer that takes in all agents of a sibling knows each of them as the sibling does,
/// but for the message of a block, and where they work. What it knew itself it keeps as it
/// was. It draws where it learned of a pane. The names of agents and their directories hold no
/// tabs and no line feeds. A newcomer on screen drops the panes that are not in its own list.
pub proof fn law_state_dump_round_trip(s: StateV, t: StateV, id: u32)
    requires
        s.status.agents.dom().finite(),
        forall|i: u32|
            s.status.agents.contains_key(i) ==> field_text((#[trigger] s.status.agents[i]).agent)
                && field_text(cwd_or_empty(s.list.pane_cwds, i)),
    ensures
        ({
            let (r, draws) = t.apply_state_dump(s.state_dump());
            let told = s.status.agents.contains_key(id);
            let known = t.status.agents.contains_key(id);
            let cwd = cwd_or_empty(s.list.pane_cwds, id);
            &&& told && !known && t.may_show(id) ==> r.status.agents.contains_key(id)
                && r.status.agents[id] == (AgentInfoV { detail: None, ..s.status.agents[id] })
            &&& known && t.may_show(id) ==> r.status.agents.contains_key(id)
                && r.status.agents[id] == t.status.agents[id]
            &&& !told && !known ==> !r.status.agents.contains_key(id)
            &&& told && !known && cwd.len() > 0 && t.may_show(id) ==> r.list.pane_cwds.contains_key(
                id,
            ) && r.list.pane_cwds[id] == cwd
            &&& (known || !told || cwd.len() == 0) && t.may_show(id)
                ==> r.list.pane_cwds.contains_key(id) == t.list.pane_cwds.contains_key(id) && (
            t.list.pane_cwds.contains_key(id) ==> r.list.pane_cwds[id] == t.list.pane_cwds[id])
            &&& told ==> r.status.state_seq >= s.status.agents[id].state_change_seq
            &&& draws <==> (exists|i: u32|
                s.status.agents.contains_key(i) && !#[trigger] t.status.agents.contains_key(i))
        }),
{
    lemma_told(s, t);
    let ids = ascending(s.status.agents.dom());
    assert(ids.contains(id) == s.status.agents.contains_key(id));
    let filled = t.roster().take_lines(agent_lines(s.status.agents, s.list.pane_cwds, ids));
    assert(filled.agents.contains_key(id) == (t.status.agents.contains_key(id) || ids.contains(
        id,
    )));
    assert(filled.cwds.contains_key(id) == (t.list.pane_cwds.contains_key(id) || arrives(
        t.roster(),
        s.list.pane_cwds,
        ids,
        id,
    )));
    if ids.contains(id) {
        let k = choose|k: int| 0 <= k < ids.len() && ids[k] == id;
        assert(ids[k] == id);
    }
    if exists|i: u32|
        s.status.agents.contains_key(i) && !#[trigger] t.status.agents.contains_key(i) {
        let i = choose|i: u32|
            s.status.agents.contains_key(i) && !#[trigger] t.status.agents.contains_key(i);
        assert(ids.contains(i));
        let k = choose|k: int| 0 <= k < ids.len() && ids[k] == i;
        assert(!t.status.agents.contains_key(ids[k]));
    } else {
        assert forall|k: int| 0 <= k < ids.len() implies t.status.agents.contains_key(
            #[trigger] ids[k],
        ) by {
            assert(ids.contains(ids[k]));
        }
    }
}

/// What a message of all agents of `s` does to `t` before panes that are gone are dropped.
proof fn lemma_told(s: StateV, t: StateV)
    requires
        s.status.agents.dom().finite(),
        forall|i: u32|
            s.status.agents.contains_key(i) ==> field_text((#[trigger] s.status.agents[i]).agent)
                && field_text(cwd_or_empty(s.list.pane_cwds, i)),
    ensures
        ({
            let ids = ascending(s.status.agents.dom());
            let told = agent_lines(s.status.agents, s.list.pane_cwds, ids);
            let r = t.roster().take_lines(told);
            &&& lines_of(s.state_dump()) == told
            &&& forall|id: u32| #[trigger] ids.contains(id) == s.status.agents.contains_key(id)
            &&& forall|id: u32| #[trigger]
                r.agents.contains_key(id) == (t.status.agents.contains_key(id) || ids.contains(id))
            &&& forall|id: u32| #[trigger]
                r.agents.contains_key(id) ==> r.agents[id] == if t.status.agents.contains_key(id) {
                    t.status.agents[id]
                } else {
                    AgentInfoV { detail: None, ..s.status.agents[id] }
                }
            &&& forall|id: u32| #[trigger]
                r.cwds.contains_key(id) == (t.list.pane_cwds.contains_key(id) || arrives(
                    t.roster(),
                    s.list.pane_cwds,
                    ids,
                    id,
                ))
            &&& forall|id: u32| #[trigger]
                r.cwds.contains_key(id) ==> r.cwds[id] == if arrives(
                    t.roster(),
                    s.list.pane_cwds,
                    ids,
                    id,
                ) {
                    s.list.pane_cwds[id]
                } else {
                    t.list.pane_cwds[id]
                }
            &&& forall|i: int|
                0 <= i < ids.len() ==> r.seq >= s.status.agents[#[trigger] ids[i]].state_change_seq
            &&& (forall|i: int|
                0 <= i < ids.len() ==> t.status.state_seq
                    >= s.status.agents[#[trigger] ids[i]].state_change_seq) ==> r.seq
                == t.status.state_seq
            &&& r.filled == 0 <==> (forall|i: int|
                0 <= i < ids.len() ==> t.status.agents.contains_key(#[trigger] ids[i]))
        }),
{
    let ids = ascending(s.status.agents.dom());
    lemma_ascending(s.status.agents.dom());
    assert forall|id: u32| #[trigger] ids.contains(id) == s.status.agents.contains_key(id) by {
        assert(ids.to_set().contains(id) == s.status.agents.contains_key(id));
    }
    assert forall|i: int| 0 <= i < ids.len() implies field_text(
        s.status.agents[#[trigger] ids[i]].agent,
    ) && field_text(cwd_or_empty(s.list.pane_cwds, ids[i])) by {
        assert(ids.contains(ids[i]));
        assert(s.status.agents.contains_key(ids[i]));
    }
    lemma_take_agents(t.roster(), s.status.agents, s.list.pane_cwds, ids);
    lemma_lines_of_block(agent_lines(s.status.agents, s.list.pane_cwds, ids));
}

/// A second message like the first one changes nothing. It draws only where the first one left
/// a pane of it out, as a pane that is gone is; where all panes are still there it does not.
pub proof fn law_state_dump_twice(s: StateV, t: StateV)
    requires
        s.status.agents.dom().finite(),
        forall|i: u32|
            s.status.agents.contains_key(i) ==> field_text((#[trigger] s.status.agents[i]).agent)
                && field_text(cwd_or_empty(s.list.pane_cwds, i)),
    ensures
        ({
            let r = t.apply_state_dump(s.state_dump()).0;
            let again = r.apply_state_dump(s.state_dump());
            &&& again.0 == r
            &&& again.1 <==> (exists|i: u32|
                s.status.agents.contains_key(i) && !#[trigger] r.status.agents.contains_key(i))
            &&& (forall|i: u32| s.status.agents.contains_key(i) ==> #[trigger] t.may_show(i))
                ==> again == (r, false)
        }),
{
    let ids = ascending(s.status.agents.dom());
    let r = t.apply_state_dump(s.state_dump()).0;
    let told = agent_lines(s.status.agents, s.list.pane_cwds, ids);
    let first = t.roster().take_lines(told);
    let second = r.roster().take_lines(told);
    let again = r.apply_state_dump(s.state_dump());
    lemma_told(s, t);
    lemma_told(s, r);
    assert(r.status.state_seq == first.seq);
    assert(second.seq == r.status.state_seq);
    if exists|i: u32|
        s.status.agents.contains_key(i) && !#[trigger] r.status.agents.contains_key(i) {
        let i = choose|i: u32|
            s.status.agents.contains_key(i) && !#[trigger] r.status.agents.contains_key(i);
        assert(ids.contains(i));
        let k = choose|k: int| 0 <= k < ids.len() && ids[k] == i;
        assert(!r.status.agents.contains_key(ids[k]));
        assert(second.filled > 0);
        assert(first.agents.contains_key(i));
        assert(first.filled > 0 && t.me.visible && t.list.panes is Some);
        let live = terminal_ids(t.list.panes->0.flat());
        assert(r == t.with_roster(first).prune_stale_agents());
        assert(again.0 == r.with_roster(second).prune_stale_agents());
        assert forall|x: u32| live.contains(x) implies #[trigger] second.agents.contains_key(x)
            == r.status.agents.contains_key(x) && (r.status.agents.contains_key(x)
            ==> second.agents[x] == r.status.agents[x]) by {
            assert(first.agents.contains_key(x) == r.status.agents.contains_key(x));
            assert(ids.contains(x) ==> first.agents.contains_key(x));
            assert(second.agents.contains_key(x) == (r.status.agents.contains_key(x)
                || ids.contains(x)));
            assert(second.agents.contains_key(x) == r.status.agents.contains_key(x));
        }
        assert forall|x: u32| live.contains(x) implies #[trigger] second.cwds.contains_key(x)
            == r.list.pane_cwds.contains_key(x) && (r.list.pane_cwds.contains_key(x)
            ==> second.cwds[x] == r.list.pane_cwds[x]) by {
            assert(first.agents.contains_key(x) == r.status.agents.contains_key(x));
            assert(ids.contains(x) ==> first.agents.contains_key(x));
            assert(!arrives(r.roster(), s.list.pane_cwds, ids, x));
            assert(second.cwds.contains_key(x) == r.list.pane_cwds.contains_key(x));
        }
        assert(second.agents.restrict(live) =~= r.status.agents);
        assert(second.cwds.restrict(live) =~= r.list.pane_cwds);
        assert(again.0.status.commands =~= r.status.commands);
        assert(again.0.list == r.list);
        assert(again.0.status == r.status);
        assert(again.0 == r);
        if forall|i: u32| s.status.agents.contains_key(i) ==> #[trigger] t.may_show(i) {
            assert(t.may_show(i));
            assert(false);
        }
    } else {
        assert forall|k: int| 0 <= k < ids.len() implies r.status.agents.contains_key(
            #[trigger] ids[k],
        ) by {
            assert(ids.contains(ids[k]));
        }
        assert(second.filled == 0);
        assert forall|x: u32| #[trigger] second.agents.contains_key(x)
            == r.status.agents.contains_key(x) by {
            if ids.contains(x) {
                let k = choose|k: int| 0 <= k < ids.len() && ids[k] == x;
                assert(r.status.agents.contains_key(ids[k]));
            }
        }
        assert(second.agents =~= r.status.agents);
        assert forall|x: u32| #[trigger] second.cwds.contains_key(x)
            == r.list.pane_cwds.contains_key(x) && (r.list.pane_cwds.contains_key(x)
            ==> second.cwds[x] == r.list.pane_cwds[x]) by {
            assert(ids.contains(x) ==> r.status.agents.contains_key(x));
            assert(!arrives(r.roster(), s.list.pane_cwds, ids, x));
        }
        assert(second.cwds =~= r.list.pane_cwds);
        assert(again == (r, false));
    }
}

} // verus!
