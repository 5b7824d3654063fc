use data_analysis::interner::Interner;

#[test]
fn intern_then_resolve_gives_string_back() {
    let mut i = Interner::new();
    let a = i.intern("Forest").unwrap();
    let b = i.intern("Cave").unwrap();
    assert_eq!(i.resolve(a), Some(String::from("Forest")));
    assert_eq!(i.resolve(b), Some(String::from("Cave")));
}

#[test]
fn interning_twice_gives_same_symbol() {
    let mut i = Interner::new();
    let a = i.intern("Forest").unwrap();
    let b = i.intern("Cave").unwrap();
    assert_eq!(i.intern("Forest"), Some(a));
    assert_ne!(a, b);
    assert_eq!(i.len(), 2);
}

#[test]
fn symbols_are_dense_from_zero() {
    let mut i = Interner::new();
    assert_eq!(i.intern("x"), Some(0));
    assert_eq!(i.intern("y"), Some(1));
    assert_eq!(i.intern("x"), Some(0));
    assert_eq!(i.strings(), vec![String::from("x"), String::from("y")]);
}

#[test]
fn unknown_symbol_resolves_to_none() {
    let mut i = Interner::new();
    i.intern("x");
    assert_eq!(i.resolve(1), None);
    assert_eq!(i.resolve(u16::MAX), None);
}

#[test]
fn full_interner_refuses_new_strings() {
    let mut i = Interner::new();
    for k in 0..65535u32 {
        assert!(i.intern(&k.to_string()).is_some());
    }
    assert_eq!(i.intern("another"), None);
    assert_eq!(i.intern("17"), Some(17));
    assert_eq!(i.len(), 65535);
}
