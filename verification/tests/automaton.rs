use regex_nfa::{NFAMachine, NFATransition, RegexAST};
use std::collections::HashSet;

fn active(states: &[usize]) -> HashSet<usize> {
    let mut set = HashSet::new();
    for s in states {
        set.insert(*s);
    }
    set
}

fn row(nfa: &NFAMachine, s: usize) -> Vec<NFATransition> {
    let mut v = Vec::new();
    let mut j = 0;
    while j < nfa.transition_count(s) {
        v.push(nfa.transition_at(s, j));
        j += 1;
    }
    v
}

#[test]
fn build_literal_wires_one_char_transition() {
    let nfa = NFAMachine::new(RegexAST::new("a"));
    assert_eq!(nfa.state_count(), 2);
    assert_eq!(row(&nfa, 0), vec![NFATransition::Chr('a', 1)]);
    assert_eq!(row(&nfa, 1), vec![]);
}

#[test]
fn build_alternation_wires_parallel_paths() {
    let nfa = NFAMachine::new(RegexAST::new("a|b"));
    assert_eq!(nfa.state_count(), 2);
    assert_eq!(
        row(&nfa, 0),
        vec![NFATransition::Chr('a', 1), NFATransition::Chr('b', 1)]
    );
    assert_eq!(row(&nfa, 1), vec![]);
}

#[test]
fn build_concat_adds_one_midpoint_state() {
    let nfa = NFAMachine::new(RegexAST::new("ab"));
    assert_eq!(nfa.state_count(), 3);
    assert_eq!(row(&nfa, 0), vec![NFATransition::Chr('a', 2)]);
    assert_eq!(row(&nfa, 2), vec![NFATransition::Chr('b', 1)]);
    assert_eq!(row(&nfa, 1), vec![]);
}

#[test]
fn build_star_wires_self_loop_and_epsilon() {
    let nfa = NFAMachine::new(RegexAST::new("a*"));
    assert_eq!(nfa.state_count(), 2);
    assert_eq!(
        row(&nfa, 0),
        vec![NFATransition::Chr('a', 0), NFATransition::Eps(1)]
    );
    assert_eq!(row(&nfa, 1), vec![]);
}

#[test]
fn build_empty_wires_epsilon() {
    let nfa = NFAMachine::new(Box::new(RegexAST::Empty));
    assert_eq!(nfa.state_count(), 2);
    assert_eq!(row(&nfa, 0), vec![NFATransition::Eps(1)]);
}

#[test]
fn step_on_star_keeps_start_active() {
    let nfa = NFAMachine::new(RegexAST::new("a*"));
    let next = nfa.mov(active(&[0]), 'a');
    assert!(next.contains(&0));
    assert!(next.contains(&1));
    // nothing ever leaves the accept state
    assert_eq!(nfa.transition_count(1), 0);
    let after = nfa.mov(next, 'a');
    assert!(after.contains(&0));
}

#[test]
fn step_matches_only_the_read_character() {
    let nfa = NFAMachine::new(RegexAST::new("a|b"));
    let next = nfa.mov(active(&[0]), 'b');
    assert_eq!(next, active(&[1]));
    let none = nfa.mov(active(&[0]), 'c');
    assert!(none.is_empty());
}

#[test]
fn step_wildcard_takes_any_character() {
    let nfa = NFAMachine::new(RegexAST::new("."));
    let next = nfa.mov(active(&[0]), 'z');
    assert_eq!(next, active(&[1]));
}

#[test]
fn step_epsilon_keeps_the_source_state() {
    let nfa = NFAMachine::new(Box::new(RegexAST::Empty));
    let next = nfa.mov(active(&[0]), 'x');
    assert_eq!(next, active(&[0, 1]));
}

#[test]
fn step_from_empty_set_is_empty() {
    let nfa = NFAMachine::new(RegexAST::new("ab"));
    let next = nfa.mov(HashSet::new(), 'a');
    assert!(next.is_empty());
}

#[test]
fn dot_lists_every_state_and_transition() {
    let nfa = NFAMachine::new(RegexAST::new("a"));
    assert_eq!(
        nfa.dot(),
        "digraph nfa {\n\t0 [shape=doublecircle];\n\t1 [shape=doublecircle];\n\t0 -> 1 [shape=circle, label=\"a\"];\n}"
    );
}

#[test]
fn dot_marks_midpoints_and_special_labels() {
    let nfa = NFAMachine::new(RegexAST::new(".x*"));
    // Cat adds state 2: any-transition into it, then the starred tail.
    let text = nfa.dot();
    assert!(text.contains("\t2 [shape=circle];\n"));
    assert!(text.contains("label=\"<any>\""));
    assert!(text.contains("label=\"<eps>\""));
}

#[test]
fn dot_renders_multi_digit_state_numbers() {
    // eleven concatenations append states 2 through 12
    let nfa = NFAMachine::new(RegexAST::new("abcdefghijkl"));
    assert_eq!(nfa.state_count(), 13);
    let text = nfa.dot();
    assert!(text.contains("\t12 [shape=circle];\n"));
}

#[test]
fn dot_escapes_quote_and_backslash_labels() {
    let nfa = NFAMachine::new(RegexAST::new("{\"}"));
    let text = nfa.dot();
    assert!(text.contains("label=\"\\\"\""));
}
