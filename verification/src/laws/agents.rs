//! Laws of saved agents.
use vstd::prelude::*;

use crate::api::agents::{
    agent_name, lemma_position, live_engine, not_named, position, prepare_start, upserted, EngineSlot,
    Refusal, SavedAgents,
};
use crate::laws::words::{is_trim, lemma_trimmed};
use crate::lists::lemma_filter_is;
use crate::models::config::{AgentConfig, BasketConfig};
use crate::text::trimmed;

verus! {

/// Only a running engine is live; one that stopped on its own is stale.
pub proof fn only_running_engines_are_live(running: Option<bool>, r: EngineSlot)
    requires
        call_ensures(live_engine, (running,), r),
    ensures
        r == EngineSlot::Live <==> running == Some(true),
        r == EngineSlot::Stale <==> running == Some(false),
        r == EngineSlot::Absent <==> running is None,
{
}

/// An agent goes by its name without the white space around it, unless nothing
/// is left.
pub proof fn agents_go_by_their_trimmed_name(cfg: &AgentConfig, r: Option<String>)
    requires
        call_ensures(agent_name, (cfg,), r),
    ensures
        r matches Some(name) ==> is_trim(cfg.name@, name@) && name@.len() > 0,
        r is None ==> is_trim(cfg.name@, Seq::<char>::empty()),
{
    lemma_trimmed(cfg.name@);
    if r is None {
        assert(trimmed(cfg.name@) =~= Seq::<char>::empty());
    }
}

/// An agent without a name and one that is running are not started, each with
/// its own refusal. Any other is, under its trimmed name, stamped with the time
/// and with no stop reason, and otherwise as it was configured.
pub proof fn starts_are_refused_or_stamped(
    cfg: AgentConfig,
    running: Option<bool>,
    now_ms: i64,
    r: Result<AgentConfig, Refusal>,
)
    requires
        call_ensures(prepare_start, (cfg, running, now_ms), r),
    ensures
        r matches Err(e) ==> e == Refusal::NamelessStart || e == Refusal::AlreadyRunning,
        r == Err::<AgentConfig, Refusal>(Refusal::NamelessStart) ==> is_trim(
            cfg.name@,
            Seq::<char>::empty(),
        ),
        r == Err::<AgentConfig, Refusal>(Refusal::AlreadyRunning) ==> running == Some(true),
        r matches Ok(c) ==> {
            &&& running != Some(true)
            &&& is_trim(cfg.name@, c.name@)
            &&& c.name@.len() > 0
            &&& c.last_active_at == now_ms
            &&& c.last_stop_reason@.len() == 0
            &&& c.trading == cfg.trading && c.basket == cfg.basket
            &&& c.kill_switch == cfg.kill_switch && c.slicing == cfg.slicing
        },
{
    lemma_trimmed(cfg.name@);
    if trimmed(cfg.name@).len() == 0 {
        assert(trimmed(cfg.name@) =~= Seq::<char>::empty());
    }
}

/// `after` is `before` with an agent saved: in the place of the first of its
/// name, or at the end where there is none. Nothing else changes.
pub open spec fn saved(
    before: Seq<AgentConfig>,
    after: Seq<AgentConfig>,
    cfg: AgentConfig,
) -> bool {
    exists|n: int|
        {
            &&& 0 <= n < after.len()
            &&& #[trigger] after[n] == cfg
            &&& forall|i: int| 0 <= i < n ==> (#[trigger] after[i]).name@ != cfg.name@
            &&& n < before.len() ==> before[n].name@ == cfg.name@ && after == before.update(n, cfg)
            &&& n >= before.len() ==> n == before.len() && after == before.push(cfg)
        }
}

/// What saving does.
proof fn lemma_saved(before: Seq<AgentConfig>, cfg: AgentConfig)
    ensures
        saved(before, upserted(before, cfg), cfg),
{
    lemma_position(before, cfg.name@);
    let after = upserted(before, cfg);
    let n = match position(before, cfg.name@) {
        Some(i) => i,
        None => before.len() as int,
    };
    assert(after[n] == cfg);
    assert forall|i: int| 0 <= i < n implies (#[trigger] after[i]).name@ != cfg.name@ by {
        assert(after[i] == before[i]);
    }
}

/// Saving replaces the agent of the same name, or adds one.
pub proof fn saving_replaces_by_name(a: &mut SavedAgents, cfg: AgentConfig)
    requires
        call_ensures(SavedAgents::upsert_saved, (a, cfg), ()),
    ensures
        saved(old(a).agents@, final(a).agents@, cfg),
{
    lemma_saved(old(a).agents@, cfg);
}

/// An agent is saved under its trimmed name, with everything else as it is; one
/// without a name is refused and nothing changes.
pub proof fn agents_are_saved_under_their_name(
    a: &mut SavedAgents,
    cfg: AgentConfig,
    r: Result<String, Refusal>,
)
    requires
        call_ensures(SavedAgents::save_agent, (a, cfg), r),
    ensures
        r matches Ok(name) ==> is_trim(cfg.name@, name@) && name@.len() > 0 && saved(
            old(a).agents@,
            final(a).agents@,
            (AgentConfig { name, ..cfg }),
        ),
        r matches Err(e) ==> e == Refusal::NamelessSave && is_trim(
            cfg.name@,
            Seq::<char>::empty(),
        ) && final(a).agents@ == old(a).agents@,
{
    lemma_trimmed(cfg.name@);
    if r is Err {
        assert(trimmed(cfg.name@) =~= Seq::<char>::empty());
    }
    if let Ok(name) = r {
        lemma_saved(old(a).agents@, AgentConfig { name, ..cfg });
    }
}

/// `after` is `before` with the stop reason of the first agent of a name set;
/// the same where there is none.
pub open spec fn stop_noted(
    before: Seq<AgentConfig>,
    after: Seq<AgentConfig>,
    name: Seq<char>,
    reason: String,
) -> bool {
    &&& after.len() == before.len()
    &&& forall|i: int|
        0 <= i < before.len() ==> {
            let first = before[i].name@ == name && forall|j: int|
                0 <= j < i ==> (#[trigger] before[j]).name@ != name;
            &&& first ==> #[trigger] after[i] == (AgentConfig {
                last_stop_reason: reason,
                ..before[i]
            })
            &&& !first ==> after[i] == before[i]
        }
}

/// Why an agent stopped is kept with it, and with no other.
pub proof fn stop_reasons_are_kept_with_the_agent(
    a: &mut SavedAgents,
    name: &String,
    reason: String,
)
    requires
        call_ensures(SavedAgents::set_stop_reason, (a, name, reason), ()),
    ensures
        stop_noted(old(a).agents@, final(a).agents@, name@, reason),
{
    lemma_position(old(a).agents@, name@);
}

/// An engine that stopped on its own has its reason kept only where none is
/// kept yet.
pub proof fn own_stops_do_not_replace_a_reason(
    a: &mut SavedAgents,
    name: &String,
    reason: Option<String>,
    r: bool,
    i: int,
)
    requires
        call_ensures(SavedAgents::note_self_stop, (a, name, reason), r),
    ensures
        r ==> reason is Some && stop_noted(old(a).agents@, final(a).agents@, name@, reason->0),
        !r ==> final(a).agents@ == old(a).agents@,
        reason is None ==> !r,
        0 <= i < old(a).agents@.len() && old(a).agents@[i].name@ == name@ && (forall|j: int|
            0 <= j < i ==> (#[trigger] old(a).agents@[j]).name@ != name@) ==> (r <==> reason is Some
            && old(a).agents@[i].last_stop_reason@.len() == 0),
        (forall|j: int|
            0 <= j < old(a).agents@.len() ==> (#[trigger] old(a).agents@[j]).name@ != name@) ==> !r,
{
    lemma_position(old(a).agents@, name@);
}

/// A running agent is not deleted, nor one that is not saved; else every agent
/// of the name goes, and no other.
pub proof fn deleting_takes_the_name_and_no_other(
    a: &mut SavedAgents,
    name: &String,
    running: Option<bool>,
    r: Result<(), Refusal>,
    c: AgentConfig,
)
    requires
        call_ensures(SavedAgents::delete_agent, (a, name, running), r),
    ensures
        running == Some(true) <==> r == Err::<(), Refusal>(Refusal::DeleteRunning),
        r is Ok <==> running != Some(true) && exists|i: int|
            0 <= i < old(a).agents@.len() && (#[trigger] old(a).agents@[i]).name@ == name@,
        r is Ok ==> (final(a).agents@.contains(c) <==> old(a).agents@.contains(c) && c.name@
            != name@),
        r is Err ==> final(a).agents@ == old(a).agents@,
{
    lemma_position(old(a).agents@, name@);
    lemma_filter_is(old(a).agents@, not_named(name@));
}

/// The exposure of a book with every basket full.
pub proof fn full_books_are_counted(c: &BasketConfig, r: i64)
    requires
        call_ensures(BasketConfig::max_exposure, (c,), r),
    ensures
        crate::laws::amounts::held(r, c.num_baskets * c.basket_size_qty),
{
}

} // verus!
