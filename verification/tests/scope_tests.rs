use makhzan::scope::Scope;

#[test]
fn scope_ordering() {
    assert!(Scope::Singleton > Scope::Scoped);
    assert!(Scope::Scoped > Scope::Transient);
    assert!(Scope::Singleton > Scope::Transient);
}

#[test]
fn scope_equality() {
    assert_eq!(Scope::Singleton, Scope::Singleton);
    assert_ne!(Scope::Singleton, Scope::Transient);
}

#[test]
fn scope_is_cached() {
    assert!(Scope::Singleton.is_cached());
    assert!(Scope::Scoped.is_cached());
    assert!(!Scope::Transient.is_cached());
}

#[test]
fn scope_display() {
    assert_eq!(Scope::Singleton.label(), "Singleton");
    assert_eq!(Scope::Scoped.label(), "Scoped");
    assert_eq!(Scope::Transient.label(), "Transient");
}

#[test]
fn scope_is_singleton() {
    assert!(Scope::Singleton.is_singleton());
    assert!(!Scope::Scoped.is_singleton());
    assert!(!Scope::Transient.is_singleton());
}

#[test]
fn scope_ordering_values() {
    assert_eq!(Scope::Singleton.ordering(), 2);
    assert_eq!(Scope::Scoped.ordering(), 1);
    assert_eq!(Scope::Transient.ordering(), 0);
    assert!(Scope::Transient < Scope::Scoped);
    assert!(Scope::Scoped <= Scope::Scoped);
    assert!(!(Scope::Scoped > Scope::Scoped));
}
