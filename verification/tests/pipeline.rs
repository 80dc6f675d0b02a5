use expander_core::dispatch::{DispatchReport, Dispatcher, OutputRequest, plan_action};
use expander_core::engine::{Engine, EngineState};
use expander_core::event::{Event, Key};
use expander_core::funnel::{Funnel, FunnelOut};
use expander_core::process::{
    Action, AppContext, AppFilter, ConfigProfile, ConfigStore, ProcessOutput, Processor,
};
use expander_core::rolling::RollingMatcher;
use expander_core::select::{Selection, select_candidate};
use expander_core::triggers::MatchDef;
use expander_core::worker;

fn key(c: char) -> Event {
    Event::Key(Key::Char(c))
}

fn ctx() -> AppContext {
    AppContext { app: String::from("editor"), title: String::from("notes") }
}

fn store_with_defaults(ids: Vec<u64>) -> ConfigStore {
    ConfigStore { profiles: Vec::new(), default_ids: ids }
}

fn processor_for(defs: Vec<MatchDef>, active: Vec<u64>) -> Processor {
    Processor::new(RollingMatcher::new(defs), store_with_defaults(active))
}

fn expect_inject(out: ProcessOutput) -> (usize, String) {
    match out {
        ProcessOutput::Done { action: Action::Inject { delete_count, text } } => {
            (delete_count, text)
        }
        _ => panic!("expected an injection"),
    }
}

fn expect_noop(out: ProcessOutput) {
    match out {
        ProcessOutput::Done { action: Action::NoOp } => {}
        _ => panic!("expected no action"),
    }
}

#[test]
fn scenario_plain_trigger_end_to_end() {
    // Trigger "btw" -> "by the way", no boundary rule: one completed
    // match on the third keystroke, erasing the three typed characters.
    let def = MatchDef::simple(1, vec!['b', 't', 'w'], String::from("by the way"));
    let mut p = processor_for(vec![def], vec![1]);
    let c = ctx();
    expect_noop(p.process(&key('b'), &c));
    expect_noop(p.process(&key('t'), &c));
    let (delete_count, text) = expect_inject(p.process(&key('w'), &c));
    assert_eq!(delete_count, 3);
    assert_eq!(text, "by the way");
}

#[test]
fn scenario_right_boundary_trigger_fires_on_space() {
    // Trigger ":date" requiring a right boundary: typing it alone yields
    // nothing; the following space fires it.
    let def = MatchDef::new(
        2,
        vec![':', 'd', 'a', 't', 'e'],
        String::from("2024-01-01"),
        true,
        false,
        true,
        0,
    );
    let mut p = processor_for(vec![def], vec![2]);
    let c = ctx();
    for ch in [':', 'd', 'a', 't', 'e'] {
        expect_noop(p.process(&key(ch), &c));
    }
    let (delete_count, text) = expect_inject(p.process(&key(' '), &c));
    assert_eq!(delete_count, 6, "the trigger and the space are both erased");
    assert_eq!(text, "2024-01-01 ", "the consumed space is typed back after the text");
}

#[test]
fn scenario_focus_change_discards_in_progress_match() {
    let def = MatchDef::simple(3, vec!['a', 'b', 'c'], String::from("alphabet"));
    let mut p = processor_for(vec![def], vec![3]);
    let c = ctx();
    expect_noop(p.process(&key('a'), &c));
    expect_noop(p.process(&key('b'), &c));
    expect_noop(p.process(&Event::Reset, &c));
    expect_noop(p.process(&key('c'), &c));
}

#[test]
fn longest_trigger_wins_selection() {
    let d1 = MatchDef::simple(1, vec!['o', 'h', 'i'], String::from("longer"));
    let d2 = MatchDef::simple(2, vec!['h', 'i'], String::from("shorter"));
    let mut p = processor_for(vec![d1, d2], vec![1, 2]);
    let c = ctx();
    expect_noop(p.process(&key('o'), &c));
    expect_noop(p.process(&key('h'), &c));
    let (delete_count, text) = expect_inject(p.process(&key('i'), &c));
    assert_eq!(delete_count, 3);
    assert_eq!(text, "longer");
}

#[test]
fn priority_breaks_length_ties() {
    let d1 = MatchDef::new(1, vec!['h', 'i'], String::from("low"), true, false, false, 1);
    let d2 = MatchDef::new(2, vec!['h', 'i'], String::from("high"), true, false, false, 9);
    let mut p = processor_for(vec![d1, d2], vec![1, 2]);
    let c = ctx();
    expect_noop(p.process(&key('h'), &c));
    let (_, text) = expect_inject(p.process(&key('i'), &c));
    assert_eq!(text, "high");
}

#[test]
fn full_tie_surfaces_ambiguity_and_choice_resolves_it() {
    let d1 = MatchDef::new(1, vec!['h', 'i'], String::from("first"), true, false, false, 5);
    let d2 = MatchDef::new(2, vec!['h', 'i'], String::from("second"), true, false, false, 5);
    let mut p = processor_for(vec![d1, d2], vec![1, 2]);
    let c = ctx();
    expect_noop(p.process(&key('h'), &c));
    let out = p.process(&key('i'), &c);
    match out {
        ProcessOutput::NeedsChoice { candidates, tied } => {
            assert_eq!(candidates.len(), 2);
            assert_eq!(tied.len(), 2);
            let pick = tied[1];
            let chosen_id = candidates[pick].id;
            match p.apply_choice(&candidates, Some(pick)) {
                Action::Inject { delete_count, text } => {
                    assert_eq!(delete_count, 2);
                    if chosen_id == 1 {
                        assert_eq!(text, "first");
                    } else {
                        assert_eq!(text, "second");
                    }
                }
                Action::NoOp => panic!("a valid pick must inject"),
            }
            // A cancelled choice resolves to no action.
            match p.apply_choice(&candidates, None) {
                Action::NoOp => {}
                _ => panic!("cancel must resolve to no action"),
            }
            // An out-of-range pick resolves to no action.
            match p.apply_choice(&candidates, Some(99)) {
                Action::NoOp => {}
                _ => panic!("an invalid pick must resolve to no action"),
            }
        }
        _ => panic!("equal rank must surface the tie"),
    }
}

#[test]
fn selector_is_deterministic() {
    let defs = vec![
        MatchDef::simple(1, vec!['o', 'h', 'i'], String::from("a")),
        MatchDef::simple(2, vec!['h', 'i'], String::from("b")),
    ];
    let mut m = RollingMatcher::new(defs);
    m.handle(&key('o'));
    m.handle(&key('h'));
    let cands = m.handle(&key('i'));
    let defs2 = vec![
        MatchDef::simple(1, vec!['o', 'h', 'i'], String::from("a")),
        MatchDef::simple(2, vec!['h', 'i'], String::from("b")),
    ];
    let ids = vec![1u64, 2u64];
    let s1 = select_candidate(&ids, &defs2, &cands);
    let s2 = select_candidate(&ids, &defs2, &cands);
    match (s1, s2) {
        (Selection::Chosen { index: i1 }, Selection::Chosen { index: i2 }) => {
            assert_eq!(i1, i2);
        }
        _ => panic!("same inputs must select the same way"),
    }
}

#[test]
fn inactive_triggers_do_not_fire() {
    let def = MatchDef::simple(1, vec!['h', 'i'], String::from("hello"));
    let mut p = processor_for(vec![def], vec![42]);
    let c = ctx();
    expect_noop(p.process(&key('h'), &c));
    expect_noop(p.process(&key('i'), &c));
}

#[test]
fn config_scopes_matches_per_application() {
    let profile = ConfigProfile {
        filter: AppFilter { app: Some(String::from("editor")), title: None },
        active_ids: vec![1],
    };
    let store = ConfigStore { profiles: vec![profile], default_ids: vec![2] };
    let in_editor = AppContext { app: String::from("editor"), title: String::from("x") };
    let elsewhere = AppContext { app: String::from("browser"), title: String::from("x") };
    assert_eq!(store.active_ids(&in_editor).as_slice(), &[1]);
    assert_eq!(store.active_ids(&elsewhere).as_slice(), &[2], "fallback to the default set");
}

#[test]
fn dispatcher_plans_delete_then_insert() {
    let reqs = plan_action(Action::Inject { delete_count: 3, text: String::from("by the way") });
    assert_eq!(reqs.len(), 2);
    match &reqs[0] {
        OutputRequest::DeleteChars { count } => assert_eq!(*count, 3),
        _ => panic!("the deletion must come first"),
    }
    match &reqs[1] {
        OutputRequest::InsertText { text } => assert_eq!(text, "by the way"),
        _ => panic!("the insertion must come second"),
    }
    assert_eq!(plan_action(Action::NoOp).len(), 0);
}

#[test]
fn dispatcher_serializes_and_classifies() {
    let mut d = Dispatcher::new();
    let first = d.begin(Action::Inject { delete_count: 1, text: String::from("a") });
    assert!(first.is_some());
    assert!(d.begin(Action::NoOp).is_none(), "one action in flight at a time");
    assert_eq!(d.complete(true, true), DispatchReport::Applied);

    let _ = d.begin(Action::Inject { delete_count: 1, text: String::from("b") });
    assert_eq!(d.complete(false, false), DispatchReport::Rejected);
    let _ = d.begin(Action::Inject { delete_count: 1, text: String::from("c") });
    assert_eq!(
        d.complete(true, false),
        DispatchReport::PartiallyApplied,
        "a half-applied injection is reported, never retried"
    );
}

#[test]
fn engine_lifecycle_and_source_loss() {
    let def = MatchDef::simple(1, vec!['h', 'i'], String::from("hello"));
    let p = processor_for(vec![def], vec![1]);
    let mut e = Engine::new(p, 2);
    assert_eq!(e.current_state(), EngineState::Idle);
    e.start();
    assert_eq!(e.current_state(), EngineState::Running);
    let c = ctx();
    expect_noop(e.handle_event(&key('h'), &c));
    let (delete_count, _) = expect_inject(e.handle_event(&key('i'), &c));
    assert_eq!(delete_count, 2);
    assert!(!e.source_lost(), "one source remains: not fatal");
    assert_eq!(e.current_state(), EngineState::Running);
    assert!(e.source_lost(), "total source loss is fatal");
    assert_eq!(e.current_state(), EngineState::ShuttingDown);
    e.finish();
    assert_eq!(e.current_state(), EngineState::Stopped);
}

#[test]
fn engine_orderly_shutdown() {
    let def = MatchDef::simple(1, vec!['h', 'i'], String::from("hello"));
    let p = processor_for(vec![def], vec![1]);
    let mut e = Engine::new(p, 1);
    e.start();
    e.shutdown();
    assert_eq!(e.current_state(), EngineState::ShuttingDown);
    e.finish();
    assert_eq!(e.current_state(), EngineState::Stopped);
}

#[test]
fn funnel_delivers_in_stamp_order_across_sources() {
    let mut f = Funnel::new(2);
    assert!(f.offer(0, 2, key('b')));
    assert!(f.offer(1, 1, key('a')));
    assert!(f.offer(0, 3, key('c')));
    match f.next_event() {
        FunnelOut::Delivered { stamp, source, .. } => {
            assert_eq!(stamp, 1);
            assert_eq!(source, 1);
        }
        _ => panic!("an event is pending"),
    }
    match f.next_event() {
        FunnelOut::Delivered { stamp, .. } => assert_eq!(stamp, 2),
        _ => panic!("an event is pending"),
    }
    match f.next_event() {
        FunnelOut::Delivered { stamp, .. } => assert_eq!(stamp, 3),
        _ => panic!("an event is pending"),
    }
    match f.next_event() {
        FunnelOut::Pending => {}
        _ => panic!("live sources remain"),
    }
}

#[test]
fn funnel_survives_partial_source_loss() {
    let mut f = Funnel::new(2);
    assert!(!f.mark_lost(0), "one source lost is not total loss");
    assert!(!f.offer(0, 1, key('a')), "a lost source is not served");
    assert!(f.offer(1, 2, key('b')), "the remaining source still is");
    match f.next_event() {
        FunnelOut::Delivered { source, .. } => assert_eq!(source, 1),
        _ => panic!("an event is pending"),
    }
    assert!(f.mark_lost(1), "now every source is gone");
    match f.next_event() {
        FunnelOut::Closed => {}
        _ => panic!("total source loss closes the funnel"),
    }
}

#[test]
fn worker_module_descriptor() {
    let m = worker::new();
    assert!(m.requires_paths);
    assert!(m.requires_config);
    assert!(m.enable_logs);
    assert_eq!(m.subcommand, "worker");
}

#[test]
fn default_module_descriptor_asks_for_nothing() {
    let m = worker::CliModule::default();
    assert!(!m.requires_paths);
    assert!(!m.requires_config);
    assert!(!m.enable_logs);
    assert_eq!(m.subcommand, "");
}
