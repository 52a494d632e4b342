use basket_grid_engine::api::agents::{
    agent_name, live_engine, manual_kill_reason, prepare_start, start, EngineSlot, Refusal,
    SavedAgents, Stop,
};
use basket_grid_engine::models::config::AgentConfig;

fn named(name: &str) -> AgentConfig {
    let mut c = AgentConfig::default_demo();
    c.name = name.to_string();
    c
}

fn saved(names: &[&str]) -> SavedAgents {
    SavedAgents { agents: names.iter().map(|n| named(n)).collect() }
}

fn list(s: &SavedAgents) -> Vec<&str> {
    s.agents.iter().map(|c| c.name.as_str()).collect()
}

#[test]
fn only_running_engines_are_live() {
    assert_eq!(live_engine(Some(true)), EngineSlot::Live);
    assert_eq!(live_engine(Some(false)), EngineSlot::Stale);
    assert_eq!(live_engine(None), EngineSlot::Absent);
}

#[test]
fn a_start_needs_a_name_that_is_free() {
    assert_eq!(agent_name(&named("  ")), None);
    assert_eq!(prepare_start(named(" \t"), None, 5).unwrap_err(), Refusal::NamelessStart);
    assert_eq!(prepare_start(named("a"), Some(true), 5).unwrap_err(), Refusal::AlreadyRunning);
    let mut c = named(" a ");
    c.last_stop_reason = "old".to_string();
    let ready = prepare_start(c, Some(false), 5).unwrap();
    assert_eq!(ready.name, "a");
    assert_eq!(ready.last_active_at, 5);
    assert_eq!(ready.last_stop_reason, "");
    assert_eq!(ready.trading.token, "BTC-USDT");
    assert!(start(named("a"), None).unwrap().last_active_at > 1_600_000_000_000);
}

#[test]
fn saving_replaces_by_name() {
    let mut s = saved(&["a", "b"]);
    let mut c = named(" b ");
    c.trading.grid_depth = 9;
    assert_eq!(s.save_agent(c).unwrap(), "b");
    assert_eq!(list(&s), ["a", "b"]);
    assert_eq!(s.agents[1].trading.grid_depth, 9);
    s.save_agent(named("c")).unwrap();
    assert_eq!(list(&s), ["a", "b", "c"]);
    assert_eq!(s.save_agent(named("")).unwrap_err(), Refusal::NamelessSave);
    s.upsert_saved(named("a"));
    assert_eq!(list(&s), ["a", "b", "c"]);
}

#[test]
fn deleting_is_refused_while_running() {
    let mut s = saved(&["a", "b", "a"]);
    let a = "a".to_string();
    assert_eq!(s.delete_agent(&a, Some(true)).unwrap_err(), Refusal::DeleteRunning);
    assert!(s.delete_agent(&a, Some(false)).is_ok());
    assert_eq!(list(&s), ["b"]);
    assert_eq!(s.delete_agent(&a, None).unwrap_err(), Refusal::NotSaved);
}

#[test]
fn stop_reasons_are_recorded() {
    let mut s = saved(&["a", "b"]);
    let b = "b".to_string();
    s.set_stop_reason(&b, "Stopped by user".to_string());
    assert_eq!(s.agents[1].last_stop_reason, "Stopped by user");
    assert_eq!(s.agents[0].last_stop_reason, "");
    s.set_stop_reason(&"x".to_string(), "nobody".to_string());
    // A recorded reason stays.
    assert!(!s.note_self_stop(&b, Some("tripped".to_string())));
    assert_eq!(s.agents[1].last_stop_reason, "Stopped by user");
    let a = "a".to_string();
    assert!(!s.note_self_stop(&a, None));
    assert!(s.note_self_stop(&a, Some("tripped".to_string())));
    assert_eq!(s.agents[0].last_stop_reason, "tripped");
    assert!(!s.note_self_stop(&"x".to_string(), Some("tripped".to_string())));
}

#[test]
fn stops_in_words() {
    assert_eq!(Stop::Stopped.reason(), "Stopped by user");
    assert_eq!(Stop::Killed.reason(), "Killed by user");
    let flat = Stop::Flattened { message: "flat".to_string() };
    assert_eq!(flat.reason(), "Force flatten: flat");
    assert_eq!(manual_kill_reason("x"), "manual kill from UI for 'x'");
}

#[test]
fn refusals_in_words() {
    let words = [
        (Refusal::NamelessStart, "agent name cannot be empty"),
        (Refusal::NamelessSave, "name cannot be empty"),
        (Refusal::AlreadyRunning, "agent 'x' is already running"),
        (Refusal::DeleteRunning, "cannot delete a running agent — stop it first"),
        (Refusal::NotSaved, "no saved agent with that name"),
        (Refusal::NotRunning, "agent 'x' is not running"),
        (Refusal::NoSnapshot, "agent 'x' is not running and has no frozen snapshot"),
        (Refusal::CorruptSnapshot, "agent 'x' snapshot file is corrupt"),
    ];
    for (r, w) in words {
        assert_eq!(r.message("x"), w);
    }
}
