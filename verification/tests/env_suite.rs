use aplang::env::{Context, Env, LoopControl};

#[test]
fn a_variable_reads_back_its_value() {
    let mut env: Env<i64> = Env::new();
    assert_eq!(env.lookup_name("x"), None);
    env.define("x".to_string(), 5);
    assert_eq!(env.lookup_name("x"), Some(&5));
    env.define("x".to_string(), 7);
    assert_eq!(env.lookup_name("x"), Some(&7));
    assert!(env.contains("x"));
    assert!(!env.contains("y"));
}

#[test]
fn nested_layers_see_outer_variables_and_fold_back() {
    let mut env: Env<String> = Env::new();
    env.define("outer".to_string(), "a".to_string());
    env.create_nested_layer();
    assert_eq!(env.lookup_name("outer"), Some(&"a".to_string()));
    env.define("inner".to_string(), "b".to_string());
    env.flatten_nested_layer();
    assert_eq!(env.lookup_name("inner"), Some(&"b".to_string()));
    assert_eq!(env.lookup_name("outer"), Some(&"a".to_string()));
}

#[test]
fn an_empty_scope_hides_outer_variables() {
    let mut env: Env<i64> = Env::new();
    env.define("x".to_string(), 1);
    env.initialize_empty_scope();
    assert_eq!(env.lookup_name("x"), None);
    let layer = env.scrape();
    assert_eq!(layer.get(&"x".to_string()), None);
    assert_eq!(env.lookup_name("x"), Some(&1));
}

#[test]
fn removing_a_variable_gives_back_its_value() {
    let mut env: Env<i64> = Env::new();
    env.define("a".to_string(), 1);
    env.define("b".to_string(), 2);
    assert_eq!(env.remove("a"), Some(1));
    assert_eq!(env.remove("a"), None);
    assert!(!env.contains("a"));
    assert_eq!(env.lookup_name("b"), Some(&2));
}

#[test]
fn contexts_bind_each_name_once() {
    let mut c: Context<u8> = Context::new();
    c.insert("k".to_string(), 1);
    c.insert("k".to_string(), 2);
    c.insert("j".to_string(), 3);
    assert_eq!(c.get(&"k".to_string()), Some(&2));
    let d = c.duplicate();
    assert_eq!(d.get(&"j".to_string()), Some(&3));
    assert_eq!(c.remove(&"k".to_string()), Some(2));
    assert_eq!(c.get(&"k".to_string()), None);
}

#[test]
fn loop_control_starts_cleared() {
    let control = LoopControl::default();
    assert!(!control.should_break);
    assert!(!control.should_continue);
}
