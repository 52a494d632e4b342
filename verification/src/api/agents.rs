//! Saved agents.
use vstd::prelude::*;

use crate::models::config::AgentConfig;
use crate::text::{trim, trimmed};

verus! {

/// The saved agents, in the order in which they were first saved.
pub struct SavedAgents {
    pub agents: Vec<AgentConfig>,
}

/// What is kept under an agent's name in the table of engines.
#[derive(Debug, Clone, Copy, PartialEq, Eq, Structural)]
pub enum EngineSlot {
    /// A running engine.
    Live,
    /// An engine that stopped on its own, to be removed.
    Stale,
    Absent,
}

/// Why a request about an agent is refused.
#[derive(Debug, Clone, Copy, PartialEq, Eq, Structural)]
pub enum Refusal {
    /// An agent cannot be started without a name.
    NamelessStart,
    /// An agent cannot be saved without a name.
    NamelessSave,
    AlreadyRunning,
    DeleteRunning,
    NotSaved,
    NotRunning,
    /// Neither a running engine nor a saved snapshot.
    NoSnapshot,
    CorruptSnapshot,
}

impl Refusal {
    /// The refusal in words, for an agent of this name.
    pub open spec fn words(self, name: Seq<char>) -> Seq<char> {
        match self {
            Refusal::NamelessStart => "agent name cannot be empty"@,
            Refusal::NamelessSave => "name cannot be empty"@,
            Refusal::AlreadyRunning => "agent '"@ + name + "' is already running"@,
            Refusal::DeleteRunning => "cannot delete a running agent — stop it first"@,
            Refusal::NotSaved => "no saved agent with that name"@,
            Refusal::NotRunning => "agent '"@ + name + "' is not running"@,
            Refusal::NoSnapshot => "agent '"@ + name
                + "' is not running and has no frozen snapshot"@,
            Refusal::CorruptSnapshot => "agent '"@ + name + "' snapshot file is corrupt"@,
        }
    }

    /// The refusal in words.
    pub fn message(self, name: &str) -> (r: String)
        ensures
            r@ == self.words(name@),
    {
        match self {
            Refusal::NamelessStart => "agent name cannot be empty".to_string(),
            Refusal::NamelessSave => "name cannot be empty".to_string(),
            Refusal::AlreadyRunning => {
                let mut out: String = "agent '".to_string();
                out.append(name);
                out.append("' is already running");
                out
            },
            Refusal::DeleteRunning => "cannot delete a running agent — stop it first".to_string(),
            Refusal::NotSaved => "no saved agent with that name".to_string(),
            Refusal::NotRunning => {
                let mut out: String = "agent '".to_string();
                out.append(name);
                out.append("' is not running");
                out
            },
            Refusal::NoSnapshot => {
                let mut out: String = "agent '".to_string();
                out.append(name);
                out.append("' is not running and has no frozen snapshot");
                out
            },
            Refusal::CorruptSnapshot => {
                let mut out: String = "agent '".to_string();
                out.append(name);
                out.append("' snapshot file is corrupt");
                out
            },
        }
    }
}

/// How an operator stops an agent.
pub enum Stop {
    /// No new orders.
    Stopped,
    /// By the kill switch.
    Killed,
    /// By a flush, which ended with these words.
    Flattened { message: String },
}

impl Stop {
    /// Why the agent stopped, in words.
    pub open spec fn words(self) -> Seq<char> {
        match self {
            Stop::Stopped => "Stopped by user"@,
            Stop::Killed => "Killed by user"@,
            Stop::Flattened { message } => "Force flatten: "@ + message@,
        }
    }

    /// Why the agent stopped, in words.
    pub fn reason(&self) -> (r: String)
        ensures
            r@ == self.words(),
    {
        match self {
            Stop::Stopped => "Stopped by user".to_string(),
            Stop::Killed => "Killed by user".to_string(),
            Stop::Flattened { message } => {
                let mut out: String = "Force flatten: ".to_string();
                out.append(message.as_str());
                out
            },
        }
    }
}

/// Why the kill switch of an agent trips at an operator's request.
pub fn manual_kill_reason(name: &str) -> (r: String)
    ensures
        r@ == "manual kill from UI for '"@ + name@ + "'"@,
{
    let mut out: String = "manual kill from UI for '".to_string();
    out.append(name);
    out.append("'");
    out
}

/// The state of a slot, from the running flag of the engine in it.
pub open spec fn slot(running: Option<bool>) -> EngineSlot {
    match running {
        Some(true) => EngineSlot::Live,
        Some(false) => EngineSlot::Stale,
        None => EngineSlot::Absent,
    }
}

/// Looks at the engine under a name: only a running one counts.
pub fn live_engine(running: Option<bool>) -> (r: EngineSlot)
    ensures
        r == slot(running),
{
    match running {
        Some(true) => EngineSlot::Live,
        Some(false) => EngineSlot::Stale,
        None => EngineSlot::Absent,
    }
}

/// The name that an agent goes by: without white space around it; none when
/// nothing is left.
pub fn agent_name(cfg: &AgentConfig) -> (r: Option<String>)
    ensures
        match r {
            Some(name) => name@ == trimmed(cfg.name@) && name@.len() > 0,
            None => trimmed(cfg.name@).len() == 0,
        },
{
    let name: String = trim(cfg.name.as_str());
    if name.as_str().unicode_len() == 0 {
        None
    } else {
        Some(name)
    }
}

/// `r` answers the request to start an agent: one without a name and one that
/// is running are refused; else it is stamped with the time and forgets why it
/// last stopped.
pub open spec fn prepares(
    cfg: AgentConfig,
    running: Option<bool>,
    now_ms: i64,
    r: Result<AgentConfig, Refusal>,
) -> bool {
    match r {
        Err(e) => if trimmed(cfg.name@).len() == 0 {
            e == Refusal::NamelessStart
        } else {
            e == Refusal::AlreadyRunning && running == Some(true)
        },
        Ok(c) => {
            &&& trimmed(cfg.name@).len() > 0
            &&& running != Some(true)
            &&& c.name@ == trimmed(cfg.name@)
            &&& c.last_active_at == now_ms
            &&& c.last_stop_reason@.len() == 0
            &&& c == (AgentConfig {
                name: c.name,
                last_active_at: c.last_active_at,
                last_stop_reason: c.last_stop_reason,
                ..cfg
            })
        },
    }
}

/// Prepares the start of an agent at a given moment. `running` is the flag of
/// the engine under its name, if there is one.
pub fn prepare_start(cfg: AgentConfig, running: Option<bool>, now_ms: i64) -> (r: Result<
    AgentConfig,
    Refusal,
>)
    ensures
        prepares(cfg, running, now_ms, r),
{
    let name: String = match agent_name(&cfg) {
        Some(name) => name,
        None => {
            return Err(Refusal::NamelessStart);
        },
    };
    if let EngineSlot::Live = live_engine(running) {
        return Err(Refusal::AlreadyRunning);
    }
    let mut to_save: AgentConfig = cfg;
    to_save.name = name;
    to_save.last_active_at = now_ms;
    to_save.last_stop_reason = String::new();
    Ok(to_save)
}

/// Prepares the start of an agent now.
pub fn start(cfg: AgentConfig, running: Option<bool>) -> (r: Result<AgentConfig, Refusal>)
    ensures
        exists|now_ms: i64| #[trigger] prepares(cfg, running, now_ms, r),
{
    let now: i64 = crate::clock::now_ms();
    prepare_start(cfg, running, now)
}

/// The place of the first agent of a name.
pub open spec fn position(agents: Seq<AgentConfig>, name: Seq<char>) -> Option<int>
    decreases agents.len(),
{
    if agents.len() == 0 {
        None
    } else {
        match position(agents.drop_last(), name) {
            Some(i) => Some(i),
            None => if agents.last().name@ == name {
                Some(agents.len() - 1)
            } else {
                None
            },
        }
    }
}

/// The saved agents with one replaced by name, or added at the end.
pub open spec fn upserted(agents: Seq<AgentConfig>, cfg: AgentConfig) -> Seq<AgentConfig> {
    match position(agents, cfg.name@) {
        Some(i) => agents.update(i, cfg),
        None => agents.push(cfg),
    }
}

/// The saved agents of other names.
pub open spec fn not_named(name: Seq<char>) -> spec_fn(AgentConfig) -> bool {
    |c: AgentConfig| c.name@ != name
}

/// What a position is: a place of the name, the first one.
pub proof fn lemma_position(agents: Seq<AgentConfig>, name: Seq<char>)
    ensures
        match position(agents, name) {
            Some(i) => {
                &&& 0 <= i < agents.len()
                &&& agents[i].name@ == name
                &&& forall|j: int| 0 <= j < i ==> (#[trigger] agents[j]).name@ != name
            },
            None => forall|j: int| 0 <= j < agents.len() ==> (#[trigger] agents[j]).name@ != name,
        },
    decreases agents.len(),
{
    if agents.len() > 0 {
        let front = agents.drop_last();
        lemma_position(front, name);
        assert(forall|j: int| 0 <= j < front.len() ==> front[j] == agents[j]);
        assert forall|j: int|
            position(agents, name) is None && 0 <= j < agents.len() implies (
        #[trigger] agents[j]).name@ != name by {
            if j < front.len() {
                assert(front[j].name@ != name);
            }
        }
        assert forall|j: int|
            position(agents, name) matches Some(i) && 0 <= j < position(agents, name)->0 implies (
        #[trigger] agents[j]).name@ != name by {
            if j < front.len() {
                assert(front[j].name@ != name);
            }
        }
    }
}

/// The first place of a name, and no other place, is its position.
proof fn lemma_position_is(agents: Seq<AgentConfig>, name: Seq<char>, i: int)
    requires
        0 <= i < agents.len(),
        agents[i].name@ == name,
        forall|j: int| 0 <= j < i ==> (#[trigger] agents[j]).name@ != name,
    ensures
        position(agents, name) == Some(i),
{
    lemma_position(agents, name);
}

impl SavedAgents {
    /// The place of the first agent of a name.
    fn find(&self, name: &String) -> (r: Option<usize>)
        ensures
            match r {
                Some(i) => position(self.agents@, name@) == Some(i as int) && i
                    < self.agents@.len(),
                None => position(self.agents@, name@) is None,
            },
    {
        let mut n: usize = 0;
        while n < self.agents.len()
            invariant
                n <= self.agents@.len(),
                forall|j: int| 0 <= j < n ==> (#[trigger] self.agents@[j]).name@ != name@,
            decreases self.agents@.len() - n,
        {
            if self.agents[n].name == *name {
                proof {
                    lemma_position_is(self.agents@, name@, n as int);
                }
                return Some(n);
            }
            n += 1;
        }
        proof {
            lemma_position(self.agents@, name@);
        }
        None
    }

    /// Saves an agent: over the one of its name, or as a new one.
    pub fn upsert_saved(&mut self, cfg: AgentConfig)
        ensures
            final(self).agents@ == upserted(old(self).agents@, cfg),
    {
        match self.find(&cfg.name) {
            Some(i) => {
                self.agents.set(i, cfg);
            },
            None => {
                self.agents.push(cfg);
            },
        }
    }

    /// Saves an agent under its name without white space around it; refuses
    /// one without a name. Returns the name.
    pub fn save_agent(&mut self, cfg: AgentConfig) -> (r: Result<String, Refusal>)
        ensures
            match r {
                Err(e) => {
                    &&& trimmed(cfg.name@).len() == 0
                    &&& e == Refusal::NamelessSave
                    &&& *final(self) == *old(self)
                },
                Ok(name) => {
                    &&& name@ == trimmed(cfg.name@)
                    &&& name@.len() > 0
                    &&& final(self).agents@ == upserted(
                        old(self).agents@,
                        (AgentConfig { name, ..cfg }),
                    )
                },
            },
    {
        match agent_name(&cfg) {
            Some(name) => {
                let mut to_save: AgentConfig = cfg;
                to_save.name = name.clone();
                self.upsert_saved(to_save);
                Ok(name)
            },
            None => Err(Refusal::NamelessSave),
        }
    }

    /// Records why an agent stopped. One that is not saved is passed over.
    pub fn set_stop_reason(&mut self, name: &String, reason: String)
        ensures
            final(self).agents@ == match position(old(self).agents@, name@) {
                Some(i) => old(self).agents@.update(
                    i,
                    (AgentConfig { last_stop_reason: reason, ..old(self).agents@[i] }),
                ),
                None => old(self).agents@,
            },
    {
        if let Some(i) = self.find(name) {
            let mut c: AgentConfig = self.agents[i].clone();
            c.last_stop_reason = reason;
            self.agents.set(i, c);
        }
    }

    /// Records why an engine stopped on its own, unless a reason is recorded
    /// already. Says whether it did.
    pub fn note_self_stop(&mut self, name: &String, reason: Option<String>) -> (r: bool)
        ensures
            ({
                let at = position(old(self).agents@, name@);
                &&& r == (reason is Some && at is Some && old(
                    self,
                ).agents@[at->0].last_stop_reason@.len() == 0)
                &&& final(self).agents@ == if r {
                    old(self).agents@.update(
                        at->0,
                        (AgentConfig {
                            last_stop_reason: reason->0,
                            ..old(self).agents@[at->0]
                        }),
                    )
                } else {
                    old(self).agents@
                }
            }),
    {
        match reason {
            Some(words) => match self.find(name) {
                Some(i) => {
                    if self.agents[i].last_stop_reason.as_str().unicode_len() == 0 {
                        self.set_stop_reason(name, words);
                        true
                    } else {
                        false
                    }
                },
                None => false,
            },
            None => false,
        }
    }

    /// Removes an agent that is not running. Refuses a running one, and one
    /// that is not saved.
    pub fn delete_agent(&mut self, name: &String, running: Option<bool>) -> (r: Result<(), Refusal>)
        ensures
            match r {
                Ok(_) => {
                    &&& running != Some(true)
                    &&& position(old(self).agents@, name@) is Some
                    &&& final(self).agents@ == old(self).agents@.filter(not_named(name@))
                },
                Err(e) => {
                    &&& e == if running == Some(true) {
                        Refusal::DeleteRunning
                    } else {
                        Refusal::NotSaved
                    }
                    &&& e == Refusal::NotSaved ==> position(old(self).agents@, name@) is None
                    &&& *final(self) == *old(self)
                },
            },
    {
        if let EngineSlot::Live = live_engine(running) {
            return Err(Refusal::DeleteRunning);
        }
        if self.find(name).is_none() {
            return Err(Refusal::NotSaved);
        }
        let mut kept: Vec<AgentConfig> = Vec::new();
        let mut n: usize = 0;
        while n < self.agents.len()
            invariant
                n <= self.agents@.len(),
                kept@ == self.agents@.take(n as int).filter(not_named(name@)),
            decreases self.agents@.len() - n,
        {
            proof {
                crate::lists::lemma_filter_step(self.agents@, not_named(name@), n as int);
            }
            if self.agents[n].name != *name {
                kept.push(self.agents[n].clone());
            }
            n += 1;
        }
        assert(self.agents@.take(self.agents@.len() as int) =~= self.agents@);
        self.agents = kept;
        Ok(())
    }
}

/// What was saved is found: after saving, the first agent of that name is the
/// one that was saved.
pub proof fn saved_agents_are_found(agents: Seq<AgentConfig>, cfg: AgentConfig)
    ensures
        position(upserted(agents, cfg), cfg.name@) is Some,
        upserted(agents, cfg)[position(upserted(agents, cfg), cfg.name@)->0] == cfg,
{
    lemma_position(agents, cfg.name@);
    let after = upserted(agents, cfg);
    match position(agents, cfg.name@) {
        Some(i) => {
            assert forall|j: int| 0 <= j < i implies (#[trigger] after[j]).name@ != cfg.name@ by {
                assert(after[j] == agents[j]);
            }
            lemma_position_is(after, cfg.name@, i);
        },
        None => {
            let i = agents.len() as int;
            assert forall|j: int| 0 <= j < i implies (#[trigger] after[j]).name@ != cfg.name@ by {
                assert(after[j] == agents[j]);
            }
            lemma_position_is(after, cfg.name@, i);
        },
    }
}

/// Saving an agent leaves the agents of other names as they are.
pub proof fn saving_touches_no_other(agents: Seq<AgentConfig>, cfg: AgentConfig, i: int)
    requires
        0 <= i < agents.len(),
        agents[i].name@ != cfg.name@,
    ensures
        upserted(agents, cfg)[i] == agents[i],
{
    lemma_position(agents, cfg.name@);
}

/// A deleted name is gone, and saving twice is saving once.
pub proof fn deleting_and_saving_again(agents: Seq<AgentConfig>, cfg: AgentConfig)
    ensures
        position(agents.filter(not_named(cfg.name@)), cfg.name@) is None,
        upserted(upserted(agents, cfg), cfg) == upserted(agents, cfg),
{
    let name = cfg.name@;
    let left = agents.filter(not_named(name));
    crate::lists::lemma_filter_is(agents, not_named(name));
    lemma_position(left, name);
    if let Some(i) = position(left, name) {
        assert(left.contains(left[i]));
    }
    saved_agents_are_found(agents, cfg);
    let once = upserted(agents, cfg);
    lemma_position(once, name);
    assert(upserted(once, cfg) =~= once);
}

} // verus!
