//! Serving a workspace: what is recorded of the running agents, what is started for
//! each, and how the clients of a bus are listed.

use crate::domain::message::RegisterView;
use crate::infra::dto::BusEnvelope;
use crate::infra::dto::BusRegister;
use crate::infra::dto::line_of;
use crate::infra::dto::list_json;
use crate::infra::dto::register_json;
use crate::infra::paths::agent_bus_socket;
use crate::infra::paths::bus_socket_of;
use crate::infra::paths::law_bus_socket_layout;
use crate::infra::paths::path_join;
use crate::infra::paths::path_joined;
use crate::json::Json;
use crate::json::JsonView;
use crate::json::as_items;
use crate::json::as_text;
use crate::json::json_parsed;
use crate::json::lemma_models;
use crate::json::member;
use crate::json::models;
use crate::json::parse_json;
use crate::text::text_eq;
use crate::text::texts;
use crate::text_map::TextMap;
use vstd::prelude::*;

verus! {

/// An agent of the workspace.
#[derive(Debug, Clone)]
pub struct AgentDef {
    pub name: String,
    pub work_dir: String,
    pub unix_user: Option<String>,
    pub config_path: String,
}

/// Where a running agent is found.
#[derive(Debug, Clone)]
pub struct AgentServeState {
    pub work_dir: String,
    pub bus_socket: String,
    pub config_path: String,
}

#[verifier::ext_equal]
pub ghost struct ServedView {
    pub work_dir: Seq<char>,
    pub bus_socket: Seq<char>,
    pub config_path: Seq<char>,
}

impl View for AgentServeState {
    type V = ServedView;

    open spec fn view(&self) -> ServedView {
        ServedView {
            work_dir: self.work_dir@,
            bus_socket: self.bus_socket@,
            config_path: self.config_path@,
        }
    }
}

/// What is recorded of an agent.
pub open spec fn served_agent(def: AgentDef) -> ServedView {
    ServedView {
        work_dir: def.work_dir@,
        bus_socket: bus_socket_of(def.work_dir@),
        config_path: def.config_path@,
    }
}

/// What is recorded of the agents, by name. Of two agents of one name the later counts.
pub open spec fn served_agents(defs: Seq<AgentDef>) -> Map<Seq<char>, ServedView>
    decreases defs.len(),
{
    if defs.len() == 0 {
        Map::empty()
    } else {
        served_agents(defs.drop_last()).insert(defs.last().name@, served_agent(defs.last()))
    }
}

/// The record by which other commands find the running agents and the rooms of the
/// workspace. The rooms are recorded as the workspace has them.
pub struct ServeState<R> {
    pub workspace_config: String,
    pub started_at: String,
    pub agents: TextMap<AgentServeState>,
    pub rooms: R,
}

impl<R> ServeState<R> {
    pub open spec fn wf(&self) -> bool {
        self.agents.wf()
    }

    /// The agents by name.
    pub open spec fn agents(&self) -> Map<Seq<char>, ServedView> {
        self.agents@.map_values(|a: AgentServeState| a@)
    }

    /// The record of the agents and the rooms of a workspace.
    pub fn new(
        workspace_config: String,
        started_at: String,
        defs: &Vec<AgentDef>,
        rooms: R,
    ) -> (r: Self)
        ensures
            r.wf(),
            r.workspace_config@ == workspace_config@,
            r.started_at@ == started_at@,
            r.agents() == served_agents(defs@),
            r.rooms == rooms,
    {
        let mut agents: TextMap<AgentServeState> = TextMap::new();
        let mut i: usize = 0;
        proof {
            assert(defs@.take(0) =~= Seq::<AgentDef>::empty());
            assert(agents@.map_values(|a: AgentServeState| a@) =~= Map::<
                Seq<char>,
                ServedView,
            >::empty());
        }
        while i < defs.len()
            invariant
                i <= defs@.len(),
                agents.wf(),
                agents@.map_values(|a: AgentServeState| a@) == served_agents(defs@.take(i as int)),
            decreases defs@.len() - i,
        {
            let def = &defs[i];
            proof {
                assert(defs@.take(i + 1).drop_last() =~= defs@.take(i as int));
            }
            let ghost before = agents@;
            let state = AgentServeState {
                work_dir: def.work_dir.clone(),
                bus_socket: agent_bus_socket(def.work_dir.as_str()),
                config_path: def.config_path.clone(),
            };
            agents.insert(def.name.clone(), state);
            proof {
                assert(state@ =~= served_agent(defs@[i as int]));
                assert(agents@.map_values(|a: AgentServeState| a@) =~= before.map_values(
                    |a: AgentServeState| a@,
                ).insert(def.name@, state@));
            }
            i += 1;
        }
        assert(defs@.take(defs@.len() as int) =~= defs@);
        ServeState { workspace_config, started_at, agents, rooms }
    }

    /// The record of one agent.
    pub fn agent(&self, name: &str) -> (r: Option<&AgentServeState>)
        requires
            self.wf(),
        ensures
            match r {
                Some(a) => self.agents().contains_key(name@) && a@ == self.agents()[name@],
                None => !self.agents().contains_key(name@),
            },
    {
        self.agents.get(name)
    }

    /// The names of the agents, each once.
    pub fn names(&self) -> (r: Vec<String>)
        requires
            self.wf(),
        ensures
            r@.len() == self.agents().dom().len(),
            forall|i: int| 0 <= i < r@.len() ==> self.agents().contains_key((#[trigger] r@[i])@),
            forall|k: Seq<char>| #[trigger]
                self.agents().contains_key(k) ==> exists|i: int|
                    0 <= i < r@.len() && (#[trigger] r@[i])@ == k,
    {
        assert(self.agents().dom() =~= self.agents@.dom());
        let r = self.agents.keys();
        assert forall|k: Seq<char>| #[trigger] self.agents().contains_key(k) implies exists|i: int|
            0 <= i < r@.len() && (#[trigger] r@[i])@ == k by {
            assert(self.agents@.contains_key(k));
        }
        r
    }
}

/// Every agent of the workspace is recorded.
pub proof fn law_every_agent_recorded(defs: Seq<AgentDef>, i: int)
    requires
        0 <= i < defs.len(),
    ensures
        served_agents(defs).contains_key(defs[i].name@),
    decreases defs.len(),
{
    if i < defs.len() - 1 {
        law_every_agent_recorded(defs.drop_last(), i);
    }
}

// ─── What is started ────────────────────────────────────────────────────────

/// A part of a served agent.
#[derive(Debug, Clone, Copy, PartialEq, Eq, Structural)]
pub enum ServePart {
    Bus,
    BusApi,
    Worker,
    TimeoutSweep,
    Workflow,
    /// The components that a change of the configuration restarts.
    Components,
    ReloadWatcher,
}

/// What is started for an agent, in order. The workflow engine and its timeouts are only
/// for an agent with models.
pub open spec fn parts_for(models: nat) -> Seq<ServePart> {
    if models > 0 {
        seq![
            ServePart::Bus,
            ServePart::BusApi,
            ServePart::Worker,
            ServePart::TimeoutSweep,
            ServePart::Workflow,
            ServePart::Components,
            ServePart::ReloadWatcher,
        ]
    } else {
        seq![
            ServePart::Bus,
            ServePart::BusApi,
            ServePart::Worker,
            ServePart::Components,
            ServePart::ReloadWatcher,
        ]
    }
}

/// What is started for an agent with that many models, in order.
pub fn parts(models: usize) -> (r: Vec<ServePart>)
    ensures
        r@ == parts_for(models as nat),
{
    let mut out: Vec<ServePart> = Vec::new();
    out.push(ServePart::Bus);
    out.push(ServePart::BusApi);
    out.push(ServePart::Worker);
    if models > 0 {
        out.push(ServePart::TimeoutSweep);
        out.push(ServePart::Workflow);
    }
    out.push(ServePart::Components);
    out.push(ServePart::ReloadWatcher);
    assert(out@ =~= parts_for(models as nat));
    out
}

/// The directory of an agent's files below its work directory.
pub fn agent_dir(work_dir: &str) -> (r: String)
    ensures
        r@ == path_joined(work_dir@, ".deskd"@),
{
    path_join(work_dir, ".deskd")
}

// ─── Listing the clients of a bus ───────────────────────────────────────────

/// The lines that ask a bus for its clients.
pub fn list_request_lines() -> (r: (String, String))
    ensures
        r.0@ == line_of(
            register_json(
                RegisterView { name: "deskd-cli-list"@, subscriptions: Seq::empty() },
            ),
        ),
        r.1@ == line_of(list_json()),
{
    let none: Vec<String> = Vec::new();
    assert(texts(none@) =~= Seq::<Seq<char>>::empty());
    let register = BusEnvelope::Register(
        BusRegister { name: "deskd-cli-list".to_owned(), subscriptions: none },
    );
    (register.to_line(), BusEnvelope::List.to_line())
}

/// What a line from the bus says about its clients.
#[derive(Debug, Clone)]
pub enum ListStep {
    /// The line is no JSON: the query fails.
    Invalid,
    /// The line is another message: the next one is read.
    Skip,
    /// The names of the clients, each once.
    Clients(Vec<String>),
}

/// The clients that a message lists, if it lists any.
pub open spec fn listed(v: JsonView) -> Option<Seq<JsonView>> {
    if as_text(member(v, "type"@)) == Some("list_response"@) {
        as_items(member(v, "clients"@))
    } else {
        None
    }
}

/// Whether a name is listed.
pub open spec fn lists(items: Seq<JsonView>, name: Seq<char>) -> bool {
    exists|i: int| 0 <= i < items.len() && #[trigger] items[i] == JsonView::Str(name)
}

/// Whether the names are those that are listed, each once.
pub open spec fn names_of(names: Seq<Seq<char>>, items: Seq<JsonView>) -> bool {
    names.no_duplicates() && forall|n: Seq<char>| names.contains(n) <==> #[trigger] lists(items, n)
}

fn has_text(v: &Vec<String>, t: &str) -> (r: bool)
    ensures
        r == texts(v@).contains(t@),
{
    let mut i: usize = 0;
    while i < v.len()
        invariant
            i <= v@.len(),
            forall|k: int| 0 <= k < i ==> (#[trigger] v@[k])@ != t@,
        decreases v@.len() - i,
    {
        if text_eq(v[i].as_str(), t) {
            assert(texts(v@)[i as int] == t@);
            return true;
        }
        i += 1;
    }
    assert forall|k: int| 0 <= k < texts(v@).len() implies texts(v@)[k] != t@ by {
        assert(v@[k]@ != t@);
    }
    false
}

/// Each name in the items once.
fn collect_names(items: &Vec<Json>) -> (r: Vec<String>)
    ensures
        names_of(texts(r@), models(items@)),
{
    let ghost all = models(items@);
    let mut out: Vec<String> = Vec::new();
    let mut i: usize = 0;
    proof {
        lemma_models(items@);
        assert(texts(out@) =~= Seq::<Seq<char>>::empty());
        assert forall|n: Seq<char>| texts(out@).contains(n) <==> #[trigger] lists(
            all.take(0),
            n,
        ) by {}
    }
    while i < items.len()
        invariant
            i <= items@.len(),
            all == models(items@),
            all.len() == items@.len(),
            forall|k: int| 0 <= k < items@.len() ==> all[k] == (#[trigger] items@[k])@,
            names_of(texts(out@), all.take(i as int)),
        decreases items@.len() - i,
    {
        let ghost before = texts(out@);
        let ghost seen = all.take(i as int);
        let ghost next = all.take(i + 1);
        proof {
            assert(next =~= seen.push(items@[i as int]@));
            assert forall|n: Seq<char>| #[trigger] lists(next, n) <==> lists(seen, n)
                || items@[i as int]@ == JsonView::Str(n) by {
                if lists(seen, n) {
                    let k = choose|k: int|
                        0 <= k < seen.len() && #[trigger] seen[k] == JsonView::Str(n);
                    assert(next[k] == JsonView::Str(n));
                }
                if items@[i as int]@ == JsonView::Str(n) {
                    assert(next[i as int] == JsonView::Str(n));
                }
                if lists(next, n) {
                    let k = choose|k: int|
                        0 <= k < next.len() && #[trigger] next[k] == JsonView::Str(n);
                    if k < i {
                        assert(seen[k] == JsonView::Str(n));
                    }
                }
            }
        }
        match items[i].as_str() {
            Some(name) => {
                if !has_text(&out, name) {
                    out.push(name.to_owned());
                    proof {
                        let after = texts(out@);
                        assert(after =~= before.push(name@));
                        assert(after.no_duplicates()) by {
                            assert forall|a: int, b: int|
                                0 <= a < after.len() && 0 <= b < after.len() && a
                                    != b implies #[trigger] after[a] != #[trigger] after[b] by {
                                if a < before.len() {
                                    assert(before.contains(before[a]));
                                }
                                if b < before.len() {
                                    assert(before.contains(before[b]));
                                }
                            }
                        }
                        assert forall|n: Seq<char>| after.contains(n) <==> #[trigger] lists(
                            next,
                            n,
                        ) by {
                            assert(before.contains(n) <==> lists(seen, n));
                            if before.contains(n) {
                                let k = choose|k: int| 0 <= k < before.len() && before[k] == n;
                                assert(after[k] == n);
                            }
                            assert(after[before.len() as int] == name@);
                            if after.contains(n) && n != name@ {
                                let k = choose|k: int| 0 <= k < after.len() && after[k] == n;
                                assert(before[k] == n);
                            }
                        }
                    }
                } else {
                    assert forall|n: Seq<char>| before.contains(n) <==> #[trigger] lists(
                        next,
                        n,
                    ) by {
                        assert(before.contains(n) <==> lists(seen, n));
                    }
                }
            },
            None => {
                assert forall|n: Seq<char>| before.contains(n) <==> #[trigger] lists(next, n) by {
                    assert(before.contains(n) <==> lists(seen, n));
                }
            },
        }
        i += 1;
    }
    assert(all.take(items@.len() as int) =~= all);
    out
}

/// Reads a line from the bus that was asked for its clients.
pub fn list_step(line: &str) -> (r: ListStep)
    ensures
        match json_parsed(line@) {
            Some(v) => match listed(v) {
                Some(items) => r matches ListStep::Clients(names) && names_of(
                    texts(names@),
                    items,
                ),
                None => r is Skip,
            },
            None => r is Invalid,
        },
{
    let v = match parse_json(line) {
        Some(v) => v,
        None => {
            return ListStep::Invalid;
        },
    };
    let is_list = match v.str_member("type") {
        Some(t) => text_eq(t, "list_response"),
        None => false,
    };
    if !is_list {
        return ListStep::Skip;
    }
    match v.get("clients") {
        Some(c) => match c.as_array() {
            Some(items) => ListStep::Clients(collect_names(items)),
            None => ListStep::Skip,
        },
        None => ListStep::Skip,
    }
}

/// Of the agents of a name the last one is recorded, with its own directories; a name that
/// no agent has is not recorded.
pub proof fn law_last_agent_of_a_name_counts(defs: Seq<AgentDef>, i: int)
    requires
        0 <= i < defs.len(),
        forall|j: int| i < j < defs.len() ==> (#[trigger] defs[j]).name@ != defs[i].name@,
        defs[i].work_dir@.len() > 0 && defs[i].work_dir@.last() != '/',
    ensures
        served_agents(defs).contains_key(defs[i].name@),
        ({
            let s = served_agents(defs)[defs[i].name@];
            &&& s.work_dir == defs[i].work_dir@
            &&& s.config_path == defs[i].config_path@
            &&& s.bus_socket == defs[i].work_dir@ + "/.deskd/bus.sock"@
        }),
    decreases defs.len(),
{
    if i < defs.len() - 1 {
        let front = defs.drop_last();
        assert forall|j: int| i < j < front.len() implies (#[trigger] front[j]).name@
            != front[i].name@ by {
            assert(defs[j].name@ != defs[i].name@);
        }
        law_last_agent_of_a_name_counts(front, i);
        assert(defs[defs.len() - 1].name@ != defs[i].name@);
    } else {
        law_bus_socket_layout(defs[i].work_dir@);
    }
}

/// Nothing is recorded under a name that no agent has.
pub proof fn law_no_other_agent_is_recorded(defs: Seq<AgentDef>, name: Seq<char>)
    requires
        forall|j: int| 0 <= j < defs.len() ==> (#[trigger] defs[j]).name@ != name,
    ensures
        !served_agents(defs).contains_key(name),
    decreases defs.len(),
{
    if defs.len() > 0 {
        let front = defs.drop_last();
        assert forall|j: int| 0 <= j < front.len() implies (#[trigger] front[j]).name@ != name by {
            assert(defs[j].name@ != name);
        }
        law_no_other_agent_is_recorded(front, name);
        assert(defs[defs.len() - 1].name@ != name);
    }
}

/// The bus comes first and what watches for changes last. The workflow engine and its
/// timeouts are started for an agent with models, and only for one.
pub proof fn law_parts_in_order(models: usize, r: Vec<ServePart>)
    requires
        call_ensures(parts, (models,), r),
    ensures
        r@.len() == if models > 0 {
            7nat
        } else {
            5nat
        },
        r@[0] is Bus && r@[1] is BusApi && r@[2] is Worker,
        r@[r@.len() - 2] is Components && r@.last() is ReloadWatcher,
        r@.contains(ServePart::Workflow) <==> models > 0,
        r@.contains(ServePart::TimeoutSweep) <==> models > 0,
{
    if models > 0 {
        assert(r@[3] is TimeoutSweep && r@[4] is Workflow);
    }
}

/// The clients of a list are told by name, each once; of any other message nothing is told.
pub proof fn law_clients_are_told(line: &str, v: JsonView, r: ListStep)
    requires
        call_ensures(list_step, (line,), r),
        json_parsed(line@) == Some(v),
    ensures
        member(v, "type"@) != Some(JsonView::Str("list_response"@)) ==> r is Skip,
        member(v, "type"@) == Some(JsonView::Str("list_response"@)) ==> (member(v, "clients"@)
            matches Some(JsonView::Array(items)) ==> (r matches ListStep::Clients(names) && texts(
            names@,
        ).no_duplicates() && (forall|i: int|
            0 <= i < items.len() && (#[trigger] items[i]) is Str ==> texts(names@).contains(
                items[i]->Str_0,
            )) && (forall|k: int|
            0 <= k < names@.len() ==> items.contains(JsonView::Str((#[trigger] names@[k])@))))),
{
    if member(v, "type"@) == Some(JsonView::Str("list_response"@)) {
        if let Some(JsonView::Array(items)) = member(v, "clients"@) {
            let names = r->Clients_0;
            assert(names_of(texts(names@), items));
            assert forall|i: int| 0 <= i < items.len() && (#[trigger] items[i]) is Str implies texts(
                names@,
            ).contains(items[i]->Str_0) by {
                assert(items[i] == JsonView::Str(items[i]->Str_0));
                assert(lists(items, items[i]->Str_0));
            }
            assert forall|k: int| 0 <= k < names@.len() implies items.contains(
                JsonView::Str((#[trigger] names@[k])@),
            ) by {
                let n = names@[k]@;
                assert(texts(names@)[k] == n);
                assert(texts(names@).contains(n));
                assert(lists(items, n));
            }
        }
    }
}

} // verus!
