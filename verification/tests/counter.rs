use imag::counter::{binding_for, interactive_step, quit, Binding, Bindings, CounterAction};

fn bindings() -> Bindings {
    let mut b = Bindings::new();
    b.insert('a', Binding::Counter("apples".to_string()));
    b.insert('b', Binding::Counter("bananas".to_string()));
    b
}

#[test]
fn quit_ends_the_mode() {
    assert!(!quit());
}

#[test]
fn quit_binding_is_added_where_missing() {
    let mut b = bindings();
    assert!(!b.has_quit_binding());
    b.ensure_quit_binding();
    assert!(b.has_quit_binding());
    assert_eq!(b.get('q'), Some(&Binding::Function("quit".to_string())));
}

#[test]
fn existing_quit_binding_is_kept() {
    let mut b = bindings();
    b.insert('x', Binding::Function("quit".to_string()));
    b.ensure_quit_binding();
    assert_eq!(b.get('q'), None);
    assert_eq!(b.get('x'), Some(&Binding::Function("quit".to_string())));
}

#[test]
fn a_line_increments_each_bound_counter() {
    let b = bindings();
    let (acts, cont) = interactive_step(&b, "abz");
    assert!(cont);
    assert_eq!(
        acts,
        vec![
            CounterAction { key: 'a', increment: true },
            CounterAction { key: 'b', increment: true }
        ]
    );
}

#[test]
fn a_line_starting_with_minus_decrements() {
    let b = bindings();
    let (acts, cont) = interactive_step(&b, "-aa\n");
    assert!(cont);
    assert_eq!(
        acts,
        vec![
            CounterAction { key: 'a', increment: false },
            CounterAction { key: 'a', increment: false }
        ]
    );
}

#[test]
fn quit_key_stops_the_line() {
    let mut b = bindings();
    b.ensure_quit_binding();
    let (acts, cont) = interactive_step(&b, "aqb");
    assert!(!cont);
    assert_eq!(acts, vec![CounterAction { key: 'a', increment: true }]);
    let (acts, cont) = interactive_step(&b, "q");
    assert!(!cont);
    assert!(acts.is_empty());
}

#[test]
fn empty_line_changes_nothing() {
    let b = bindings();
    assert_eq!(interactive_step(&b, ""), (vec![], true));
    assert_eq!(interactive_step(&b, "zzz"), (vec![], true));
}

#[test]
fn bindings_from_key_value_specs() {
    assert_eq!(binding_for("q", "quit".to_string()), Some(('q', Binding::Function("quit".to_string()))));
    assert_eq!(
        binding_for("c", "coffee".to_string()),
        Some(('c', Binding::Counter("coffee".to_string())))
    );
    assert_eq!(binding_for("ab", "quit".to_string()), None);
    assert_eq!(binding_for("", "coffee".to_string()), None);
}
