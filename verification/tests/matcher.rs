use expander_core::chars::{ch_eq, fold_char, is_boundary};
use expander_core::event::{Event, Key};
use expander_core::rolling::RollingMatcher;
use expander_core::triggers::MatchDef;

fn key(c: char) -> Event {
    Event::Key(Key::Char(c))
}

fn type_str(m: &mut RollingMatcher, s: &str) {
    for c in s.chars() {
        m.handle(&key(c));
    }
}

#[test]
fn folds_ascii_case_only() {
    assert_eq!(fold_char('A'), 'a');
    assert_eq!(fold_char('Z'), 'z');
    assert_eq!(fold_char('a'), 'a');
    assert_eq!(fold_char('1'), '1');
    assert_eq!(fold_char('-'), '-');
}

#[test]
fn boundary_characters() {
    assert!(is_boundary(' '));
    assert!(is_boundary('.'));
    assert!(is_boundary('\n'));
    assert!(!is_boundary('a'));
    assert!(!is_boundary('Z'));
    assert!(!is_boundary('0'));
    assert!(!is_boundary('_'));
}

#[test]
fn char_equality_follows_case_rule() {
    assert!(ch_eq('a', 'A', false));
    assert!(!ch_eq('a', 'A', true));
    assert!(ch_eq('a', 'a', true));
    assert!(!ch_eq('a', 'b', false));
}

#[test]
fn incremental_state_equals_batch_state() {
    // Trigger "aab": while typing "aaa" the matcher must hold exactly the
    // partial lengths that recomputing from the full history calls for:
    // tails "a" and "aa" match, "aaa" does not.
    let def = MatchDef::simple(7, vec!['a', 'a', 'b'], String::from("out"));
    let mut m = RollingMatcher::new(vec![def]);
    type_str(&mut m, "aaa");
    assert!(m.has_partial_of_len(0, 1));
    assert!(m.has_partial_of_len(0, 2));
    assert!(!m.has_partial_of_len(0, 3));
    // The same key fed to a fresh matcher over the same history agrees.
    let def2 = MatchDef::simple(7, vec!['a', 'a', 'b'], String::from("out"));
    let mut m2 = RollingMatcher::new(vec![def2]);
    type_str(&mut m2, "aaa");
    for k in 1..4 {
        assert_eq!(m.has_partial_of_len(0, k), m2.has_partial_of_len(0, k));
    }
    // "aab" still fires inside "aaab": the shorter restart carried it.
    let fired = m.handle(&key('b'));
    assert_eq!(fired.len(), 1);
    assert_eq!(fired[0].id, 7);
}

#[test]
fn backspace_inverts_key_press() {
    let def = MatchDef::simple(1, vec!['h', 'i'], String::from("hello"));
    let mut m = RollingMatcher::new(vec![def]);
    type_str(&mut m, "xh");
    let before: Vec<bool> = (1..3).map(|k| m.has_partial_of_len(0, k)).collect();
    let typed_before = m.typed_len();
    m.handle(&key('q'));
    m.handle(&Event::Backspace);
    let after: Vec<bool> = (1..3).map(|k| m.has_partial_of_len(0, k)).collect();
    assert_eq!(before, after);
    assert_eq!(typed_before, m.typed_len());
}

#[test]
fn plain_trigger_completes_on_last_chars_regardless_of_prefix() {
    // Whatever precedes it, typing the pattern's characters fires it.
    let def = MatchDef::simple(3, vec!['b', 't', 'w'], String::from("by the way"));
    let mut m = RollingMatcher::new(vec![def]);
    type_str(&mut m, "zz 99bt");
    let fired = m.handle(&key('w'));
    assert_eq!(fired.len(), 1);
    assert_eq!(fired[0].matched, vec!['b', 't', 'w']);
}

#[test]
fn suffix_triggers_complete_together() {
    // "hi" is a suffix of "ohi": typing "ohi" puts both in the candidate
    // set on the same event.
    let d1 = MatchDef::simple(1, vec!['o', 'h', 'i'], String::from("long"));
    let d2 = MatchDef::simple(2, vec!['h', 'i'], String::from("short"));
    let mut m = RollingMatcher::new(vec![d1, d2]);
    m.handle(&key('o'));
    m.handle(&key('h'));
    let fired = m.handle(&key('i'));
    assert_eq!(fired.len(), 2);
    let ids: Vec<u64> = fired.iter().map(|c| c.id).collect();
    assert!(ids.contains(&1));
    assert!(ids.contains(&2));
}

#[test]
fn two_backspaces_restore_partial_state_not_empty_state() {
    // Typing "xhix", then two backspaces, must equal the state after
    // typing "xh" - the partial match on "h" is still alive.
    let def = MatchDef::simple(1, vec!['h', 'i'], String::from("hello"));
    let mut m = RollingMatcher::new(vec![def]);
    type_str(&mut m, "xhix");
    m.handle(&Event::Backspace);
    m.handle(&Event::Backspace);

    let def2 = MatchDef::simple(1, vec!['h', 'i'], String::from("hello"));
    let mut m2 = RollingMatcher::new(vec![def2]);
    type_str(&mut m2, "xh");

    assert_eq!(m.typed_len(), m2.typed_len());
    for k in 1..3 {
        assert_eq!(m.has_partial_of_len(0, k), m2.has_partial_of_len(0, k));
    }
    assert!(m.has_partial_of_len(0, 1));
    assert!(m.partial_count() > 0);
}

#[test]
fn reset_discards_all_progress() {
    // A trigger typed up to its last character never completes across a
    // reset: the context is gone.
    let def = MatchDef::simple(4, vec!['a', 'b', 'c'], String::from("alphabet"));
    let mut m = RollingMatcher::new(vec![def]);
    type_str(&mut m, "ab");
    assert!(m.has_partial_of_len(0, 2));
    let none = m.handle(&Event::Reset);
    assert_eq!(none.len(), 0);
    assert_eq!(m.partial_count(), 0);
    assert_eq!(m.typed_len(), 0);
    let fired = m.handle(&key('c'));
    assert_eq!(fired.len(), 0);
}

#[test]
fn unclassified_key_acts_as_reset() {
    let def = MatchDef::simple(4, vec!['a', 'b'], String::from("x"));
    let mut m = RollingMatcher::new(vec![def]);
    m.handle(&key('a'));
    assert!(m.has_partial_of_len(0, 1));
    m.handle(&Event::Key(Key::Other));
    assert_eq!(m.partial_count(), 0);
    let fired = m.handle(&key('b'));
    assert_eq!(fired.len(), 0);
}

#[test]
fn case_insensitive_match_records_typed_text() {
    let def = MatchDef::new(9, vec!['b', 't', 'w'], String::from("by the way"), false, false, false, 0);
    let mut m = RollingMatcher::new(vec![def]);
    m.handle(&key('B'));
    m.handle(&key('T'));
    let fired = m.handle(&key('W'));
    assert_eq!(fired.len(), 1);
    assert_eq!(fired[0].matched, vec!['B', 'T', 'W']);
}

#[test]
fn left_boundary_rule_blocks_mid_word_fire() {
    let make = || MatchDef::new(5, vec!['h', 'i'], String::from("hello"), true, true, false, 0);
    let mut m = RollingMatcher::new(vec![make()]);
    type_str(&mut m, "xh");
    let fired = m.handle(&key('i'));
    assert_eq!(fired.len(), 0, "mid-word completion must be blocked");

    let mut m2 = RollingMatcher::new(vec![make()]);
    type_str(&mut m2, "-h");
    let fired2 = m2.handle(&key('i'));
    assert_eq!(fired2.len(), 1, "a boundary before the match allows it");

    let mut m3 = RollingMatcher::new(vec![make()]);
    m3.handle(&key('h'));
    let fired3 = m3.handle(&key('i'));
    assert_eq!(fired3.len(), 1, "start of stream counts as a boundary");
}

#[test]
fn right_boundary_trigger_waits_for_delimiter() {
    let def = MatchDef::new(6, vec!['h', 'i'], String::from("hello"), true, false, true, 0);
    let mut m = RollingMatcher::new(vec![def]);
    m.handle(&key('h'));
    let on_i = m.handle(&key('i'));
    assert_eq!(on_i.len(), 0, "the full pattern alone must not fire");
    let on_space = m.handle(&key(' '));
    assert_eq!(on_space.len(), 1);
    assert_eq!(on_space[0].delimiter, Some(' '));
    assert_eq!(on_space[0].matched, vec!['h', 'i']);
}

#[test]
fn right_boundary_trigger_dies_on_word_char() {
    let def = MatchDef::new(6, vec!['h', 'i'], String::from("hello"), true, false, true, 0);
    let mut m = RollingMatcher::new(vec![def]);
    m.handle(&key('h'));
    m.handle(&key('i'));
    let on_x = m.handle(&key('x'));
    assert_eq!(on_x.len(), 0);
    let on_space = m.handle(&key(' '));
    assert_eq!(on_space.len(), 0, "\"hix \" does not contain the trigger before the space");
}

#[test]
fn enter_and_tab_act_as_boundary_keys() {
    let def = MatchDef::new(6, vec!['o', 'k'], String::from("okay"), true, false, true, 0);
    let mut m = RollingMatcher::new(vec![def]);
    m.handle(&key('o'));
    m.handle(&key('k'));
    let fired = m.handle(&Event::Key(Key::Enter));
    assert_eq!(fired.len(), 1);
    assert_eq!(fired[0].delimiter, Some('\n'));
}

#[test]
fn trigger_matches_again_mid_stream() {
    let def = MatchDef::simple(2, vec!['h', 'i'], String::from("hello"));
    let mut m = RollingMatcher::new(vec![def]);
    type_str(&mut m, "hih");
    let fired = m.handle(&key('i'));
    assert_eq!(fired.len(), 1, "\"hi\" must match again inside \"hihi\"");
}

#[test]
fn completion_reports_event_index() {
    let def = MatchDef::simple(2, vec!['h', 'i'], String::from("hello"));
    let mut m = RollingMatcher::new(vec![def]);
    m.handle(&key('h'));
    let fired = m.handle(&key('i'));
    assert_eq!(fired[0].event_index, 2);
}
