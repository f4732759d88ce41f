use yali::env::Env;
use yali::parser::{Atom, Expr};

fn enum_num(n: i32) -> Expr {
    Expr::Atom(Box::new(Atom::Num(n)))
}

#[test]
fn insert_binds_in_current_frame_only() {
    let mut env = Env::from(Vec::new());
    env.insert(0, "x", enum_num(1));
    assert!(env.contains_symbol(0, "x"));
    assert_eq!(env.get(0, "x").unwrap(), enum_num(1));
    let inner = env.new(Some(0));
    env.insert(inner, "y", enum_num(2));
    assert!(env.contains_symbol(inner, "y"));
    assert!(!env.contains_symbol(0, "y"));
}

#[test]
fn get_walks_the_chain_outward() {
    let mut env = Env::from(Vec::new());
    env.insert(0, "x", enum_num(1));
    let inner = env.new(Some(0));
    assert_eq!(env.get(inner, "x").unwrap(), enum_num(1));
    assert!(env.get(inner, "missing").is_err());
}

#[test]
fn insert_shadows_outer_binding() {
    let mut env = Env::from(Vec::new());
    env.insert(0, "x", enum_num(1));
    let inner = env.new(Some(0));
    env.insert(inner, "x", enum_num(2));
    assert_eq!(env.get(inner, "x").unwrap(), enum_num(2));
    assert_eq!(env.get(0, "x").unwrap(), enum_num(1));
}

#[test]
fn set_overwrites_where_the_binding_lives() {
    let mut env = Env::from(Vec::new());
    env.insert(0, "x", enum_num(1));
    let inner = env.new(Some(0));
    env.set(inner, "x", enum_num(9));
    // The outer frame's binding changed; the inner frame gained none.
    assert_eq!(env.get(0, "x").unwrap(), enum_num(9));
    assert_eq!(env.get(inner, "x").unwrap(), enum_num(9));
}

#[test]
fn set_falls_back_to_inserting_locally() {
    let mut env = Env::from(Vec::new());
    let inner = env.new(Some(0));
    env.set(inner, "fresh", enum_num(3));
    assert_eq!(env.get(inner, "fresh").unwrap(), enum_num(3));
    assert!(!env.contains_symbol(0, "fresh"));
}

#[test]
fn set_outer_rewires_the_chain() {
    let mut env = Env::from(Vec::new());
    env.insert(0, "x", enum_num(1));
    let lone = env.new(None);
    assert!(!env.contains_symbol(lone, "x"));
    env.set_outer(lone, 0);
    assert_eq!(env.get(lone, "x").unwrap(), enum_num(1));
}

#[test]
fn new_frames_grow_the_arena() {
    let mut env = Env::from(Vec::new());
    assert_eq!(env.len(), 1);
    let a = env.new(None);
    let b = env.new(Some(a));
    assert_eq!(a, 1);
    assert_eq!(b, 2);
    assert_eq!(env.len(), 3);
}

#[test]
fn latest_binding_wins() {
    let mut env = Env::from(Vec::new());
    env.insert(0, "x", enum_num(1));
    env.insert(0, "x", enum_num(2));
    assert_eq!(env.get(0, "x").unwrap(), enum_num(2));
}
