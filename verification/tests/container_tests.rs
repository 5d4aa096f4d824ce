use makhzan::container::resolve;
use makhzan::container::Container;
use makhzan::error::MakhzanError;
use makhzan::key::DependencyKey;
use makhzan::provider::ProviderRegistry;
use makhzan::registry::FactoryFn;
use makhzan::registry::Instance;
use makhzan::registry::Recipe;
use makhzan::registry::Resolution;
use makhzan::registry::Resolver;
use std::sync::Arc;
use std::sync::atomic::AtomicU32;
use std::sync::atomic::Ordering;

#[test]
fn resolve_singleton_value() {
    let container = Container::builder().singleton_value("i32", 42i32).build().unwrap();

    let value: i32 = container.resolve("i32").unwrap();
    assert_eq!(value, 42);

    // Resolve again: same value
    let value2: i32 = container.resolve("i32").unwrap();
    assert_eq!(value2, 42);
}

#[test]
fn resolve_singleton_string() {
    let container = Container::builder()
        .singleton_value("alloc::string::String", String::from("hello"))
        .build()
        .unwrap();

    let s: String = container.resolve("alloc::string::String").unwrap();
    assert_eq!(s, "hello");
}

#[test]
fn resolve_transient_creates_new_each_time() {
    let counter = Arc::new(AtomicU32::new(0));

    let container = Container::builder()
        .transient_with::<u32>("u32", {
            let counter = counter.clone();
            move |_| Ok(counter.fetch_add(1, Ordering::SeqCst))
        })
        .build()
        .unwrap();

    let a: u32 = container.resolve("u32").unwrap();
    let b: u32 = container.resolve("u32").unwrap();
    let c: u32 = container.resolve("u32").unwrap();

    assert_eq!(a, 0);
    assert_eq!(b, 1);
    assert_eq!(c, 2);
}

#[test]
fn singleton_factory_called_once() {
    let counter = Arc::new(AtomicU32::new(0));

    let container = Container::builder()
        .singleton_with::<i32>("i32", {
            let counter = counter.clone();
            move |_| {
                counter.fetch_add(1, Ordering::SeqCst);
                Ok(42)
            }
        })
        .build()
        .unwrap();

    let _a: i32 = container.resolve("i32").unwrap();
    let _b: i32 = container.resolve("i32").unwrap();
    let _c: i32 = container.resolve("i32").unwrap();

    // Factory called only once
    assert_eq!(counter.load(Ordering::SeqCst), 1);
}

#[test]
fn resolve_with_dependency() {
    let container = Container::builder()
        .singleton_value("alloc::string::String", String::from("postgres://localhost"))
        .transient_with::<Vec<u8>>("alloc::vec::Vec<u8>", |r| {
            let url: String = resolve(r, "alloc::string::String")?;
            Ok(url.into_bytes())
        })
        .build()
        .unwrap();

    let bytes: Vec<u8> = container.resolve("alloc::vec::Vec<u8>").unwrap();
    assert_eq!(bytes, b"postgres://localhost");
}

#[test]
fn resolve_not_registered() {
    let container = Container::builder().build().unwrap();

    let result = container.resolve::<i32>("i32");
    assert!(result.is_err());

    match result.unwrap_err() {
        MakhzanError::NotRegistered(e) => {
            assert!(e.requested.display_name().contains("i32"));
        }
        other => panic!("Expected NotRegistered, got: {other:?}"),
    }
}

#[test]
fn scoped_container_resolves() {
    let container = Container::builder().singleton_value("i32", 42i32).build().unwrap();

    let scope = container.create_scope();
    let value: i32 = scope.resolve("i32").unwrap();
    assert_eq!(value, 42);
}

#[derive(Clone)]
struct Database {
    url: String,
}

struct UserService {
    db: Arc<Database>,
}

#[test]
fn arc_singleton_pattern() {
    let container = Container::builder()
        .singleton_with::<Arc<Database>>("alloc::sync::Arc<Database>", |_| {
            Ok(Arc::new(Database { url: "postgres://localhost".into() }))
        })
        .transient_with::<UserService>("UserService", |r| {
            let db: Arc<Database> = resolve(r, "alloc::sync::Arc<Database>")?;
            Ok(UserService { db })
        })
        .build()
        .unwrap();

    let svc: UserService = container.resolve("UserService").unwrap();
    assert_eq!(svc.db.url, "postgres://localhost");
}

#[test]
fn debug_display() {
    let container = Container::builder()
        .singleton_value("i32", 1i32)
        .singleton_value("alloc::string::String", String::from("x"))
        .build()
        .unwrap();

    let debug = container.describe();
    assert!(debug.contains("Container"));
    assert!(debug.contains("2")); // 2 registered
    assert_eq!(debug, "Container { registered: 2 }");
}

#[test]
fn unregistered_key_gives_a_fault_with_suggestions() {
    let container = Container::builder()
        .singleton_value("my_app::UserService", 1u8)
        .singleton_value("my_app::Logger", 2u16)
        .build()
        .unwrap();
    let wanted = DependencyKey::of::<u32>("UserService");
    match container.resolve_internal(&wanted) {
        Err(MakhzanError::NotRegistered(e)) => {
            assert_eq!(e.requested, wanted);
            assert_eq!(e.required_by, None);
            assert_eq!(e.suggestions, vec![DependencyKey::of::<u8>("my_app::UserService")]);
        }
        Err(other) => panic!("Expected NotRegistered, got: {other:?}"),
        Ok(_) => panic!("Expected NotRegistered, got an instance"),
    }
    assert!(container.locate(&wanted).is_err());
    assert!(container.locate(&DependencyKey::of::<u8>("u8")).is_ok());
}

#[test]
fn wrong_type_gives_a_construction_fault() {
    let mut builder = Container::builder();
    builder.register_transient(
        DependencyKey::of::<u32>("u32"),
        FactoryFn::from_fn(|_| Ok(Instance::new(String::from("not a number")))),
        vec![],
    );
    let container = builder.build().unwrap();
    match container.resolve::<u32>("u32") {
        Err(MakhzanError::ConstructionFailed { key, source }) => {
            assert_eq!(key, DependencyKey::of::<u32>("u32"));
            assert_eq!(source, "Type mismatch: expected u32");
        }
        other => panic!("Expected ConstructionFailed, got: {other:?}"),
    }
}

#[test]
fn duplicate_registration_fails_the_build_unless_overriding() {
    let built = Container::builder()
        .singleton_value("i32", 1i32)
        .singleton_value("i32", 2i32)
        .build();
    match built {
        Err(MakhzanError::AlreadyRegistered(e)) => {
            assert_eq!(e.key, DependencyKey::of::<i32>("i32"));
        }
        Err(other) => panic!("Expected AlreadyRegistered, got: {other:?}"),
        Ok(_) => panic!("Expected AlreadyRegistered, got a container"),
    }

    let container = Container::builder()
        .allow_override(true)
        .singleton_value("i32", 1i32)
        .singleton_value("i32", 2i32)
        .build()
        .unwrap();
    assert_eq!(container.resolve::<i32>("i32").unwrap(), 2);
}

#[test]
fn alias_resolves_to_the_target() {
    let mut builder = Container::builder().singleton_value("i32", 7i32);
    builder.register_alias(
        DependencyKey::named::<i32>("i32", "lucky"),
        DependencyKey::of::<i32>("i32"),
    );
    let container = builder.build().unwrap();
    let found = container.resolve_internal(&DependencyKey::named::<i32>("i32", "lucky"));
    assert_eq!(found.ok().unwrap().downcast::<i32>().ok(), Some(7));
}

#[test]
fn failed_singleton_fails_the_same_way_ever_after() {
    let counter = Arc::new(AtomicU32::new(0));
    let container = Container::builder()
        .singleton_with::<i32>("i32", {
            let counter = counter.clone();
            move |_| {
                counter.fetch_add(1, Ordering::SeqCst);
                Err(MakhzanError::ContainerFrozen)
            }
        })
        .build()
        .unwrap();
    assert!(matches!(container.resolve::<i32>("i32"), Err(MakhzanError::ContainerFrozen)));
    assert!(matches!(container.resolve::<i32>("i32"), Err(MakhzanError::ContainerFrozen)));
    assert_eq!(counter.load(Ordering::SeqCst), 1);
}

#[test]
fn scoped_factory_runs_on_every_resolution() {
    let counter = Arc::new(AtomicU32::new(0));
    let container = Container::builder()
        .scoped_with::<u32>("u32", {
            let counter = counter.clone();
            move |_| Ok(counter.fetch_add(1, Ordering::SeqCst))
        })
        .build()
        .unwrap();
    let scope = container.create_scope();
    assert_eq!(scope.resolve::<u32>("u32").unwrap(), 0);
    assert_eq!(scope.resolve::<u32>("u32").unwrap(), 1);
    assert_eq!(counter.load(Ordering::SeqCst), 2);
}

#[test]
fn build_fails_on_a_declared_cycle() {
    struct A;
    struct B;
    let a = DependencyKey::of::<A>("A");
    let b = DependencyKey::of::<B>("B");
    let mut builder = Container::builder();
    builder.register_transient(a, FactoryFn::from_fn(|_| Ok(Instance::new(1u8))), vec![b]);
    builder.register_transient(b, FactoryFn::from_fn(|_| Ok(Instance::new(2u8))), vec![a]);
    match builder.build() {
        Err(MakhzanError::CircularDependency(e)) => {
            assert_eq!(e.chain, vec![a, b, a]);
        }
        Err(other) => panic!("Expected CircularDependency, got: {other:?}"),
        Ok(_) => panic!("Expected CircularDependency, got a container"),
    }
}

#[test]
fn build_fails_when_a_singleton_declares_a_transient() {
    struct Database;
    struct Service;
    let database = DependencyKey::of::<Database>("Database");
    let service = DependencyKey::of::<Service>("Service");
    let mut builder = Container::builder();
    builder.register_transient(database, FactoryFn::from_fn(|_| Ok(Instance::new(1u8))), vec![]);
    builder.register_singleton(
        service,
        FactoryFn::from_fn(|_| Ok(Instance::new(2u8))),
        vec![database],
    );
    match builder.build() {
        Err(MakhzanError::ScopeMismatch(e)) => {
            assert_eq!(e.consumer, service);
            assert_eq!(e.consumer_scope, makhzan::scope::Scope::Singleton);
            assert_eq!(e.dependency, database);
            assert_eq!(e.dependency_scope, makhzan::scope::Scope::Transient);
        }
        Err(other) => panic!("Expected ScopeMismatch, got: {other:?}"),
        Ok(_) => panic!("Expected ScopeMismatch, got a container"),
    }
}

#[test]
fn registration_with_declared_dependencies() {
    let text = DependencyKey::of::<String>("alloc::string::String");
    let length = DependencyKey::of::<usize>("usize");
    let container = Container::builder()
        .register_internal(
            length,
            makhzan::scope::Scope::Transient,
            FactoryFn::from_fn(|r| {
                let text: String = resolve(r, "alloc::string::String")?;
                Ok(Instance::new(text.len()))
            }),
            vec![text],
        )
        .singleton_value("alloc::string::String", String::from("four"))
        .build()
        .unwrap();
    assert_eq!(container.resolve::<usize>("usize").unwrap(), 4);

    let missing = Container::builder()
        .register_internal(
            length,
            makhzan::scope::Scope::Transient,
            FactoryFn::from_fn(|_| Ok(Instance::new(0usize))),
            vec![text],
        )
        .build();
    match missing {
        Err(MakhzanError::NotRegistered(e)) => {
            assert_eq!(e.requested, text);
            assert_eq!(e.required_by, Some(length));
        }
        Err(other) => panic!("Expected NotRegistered, got: {other:?}"),
        Ok(_) => panic!("Expected NotRegistered, got a container"),
    }
}

#[test]
fn instance_comes_back_when_the_type_is_wrong() {
    let instance = Instance::new(5u8);
    let back = match instance.downcast::<String>() {
        Ok(text) => panic!("a number came out as the text {text}"),
        Err(back) => back,
    };
    assert_eq!(back.downcast::<u8>().ok(), Some(5));
}

struct Fixed(u32);

impl Resolver for Fixed {
    fn resolve_key(&self, key: &DependencyKey) -> Result<Instance, MakhzanError> {
        if key.display_name() == "u32" {
            Ok(Instance::new(self.0))
        } else {
            Err(MakhzanError::ContainerFrozen)
        }
    }
}

#[test]
fn typed_resolution_from_any_resolver() {
    // the value comes out under its own type
    assert_eq!(resolve::<u32>(&Fixed(5), "u32").ok(), Some(5));
    // a fault of the resolver is handed on
    assert!(matches!(resolve::<u32>(&Fixed(5), "other"), Err(MakhzanError::ContainerFrozen)));
    // a value of another type gives the construction fault for the key
    match resolve::<String>(&Fixed(5), "u32") {
        Err(MakhzanError::ConstructionFailed { key, source }) => {
            assert_eq!(key, DependencyKey::of::<String>("u32"));
            assert_eq!(source, "Type mismatch: expected u32");
        }
        other => panic!("Expected ConstructionFailed, got: {other:?}"),
    }
}

#[test]
fn duplicate_of_a_fault_says_the_same() {
    let faults = vec![
        MakhzanError::ContainerFrozen,
        MakhzanError::ConstructionFailed {
            key: DependencyKey::of::<u8>("u8"),
            source: String::from("no"),
        },
        MakhzanError::CircularDependency(makhzan::error::CircularDependencyError {
            chain: vec![DependencyKey::of::<u8>("A"), DependencyKey::of::<u8>("A")],
        }),
        MakhzanError::NotRegistered(makhzan::error::NotRegisteredError {
            requested: DependencyKey::of::<u8>("A"),
            required_by: Some(DependencyKey::named::<u8>("B", "b")),
            suggestions: vec![DependencyKey::of::<u16>("AA")],
        }),
    ];
    for fault in faults {
        let copy = fault.duplicate();
        assert_eq!(copy.message(), fault.message());
        assert_eq!(format!("{copy:?}"), format!("{fault:?}"));
    }
}

#[test]
fn factory_call_runs_the_recipe() {
    let factory = FactoryFn::from_fn(|r| {
        let n: u32 = resolve(r, "u32")?;
        Ok(Instance::new(n + 1))
    });
    assert_eq!(factory.call(&Resolution::new(&Fixed(41))).ok().unwrap().downcast::<u32>().ok(), Some(42));
    let failing = FactoryFn::from_fn(|r| {
        let n: u32 = resolve(r, "missing")?;
        Ok(Instance::new(n))
    });
    assert!(matches!(failing.call(&Resolution::new(&Fixed(41))), Err(MakhzanError::ContainerFrozen)));
}

#[test]
fn first_registration_fault_is_reported_before_validation() {
    struct A;
    struct B;
    let a = DependencyKey::of::<A>("A");
    let b = DependencyKey::of::<B>("B");
    let missing = DependencyKey::of::<u64>("Missing");
    let mut builder = Container::builder();
    // the graph is not valid either: a declares a key that is not registered
    builder.register_transient(a, FactoryFn::from_fn(|_| Ok(Instance::new(1u8))), vec![missing]);
    builder.register_scoped(b, FactoryFn::from_fn(|_| Ok(Instance::new(2u8))), vec![]);
    builder.register_singleton(b, FactoryFn::from_fn(|_| Ok(Instance::new(3u8))), vec![]);
    builder.register_transient(a, FactoryFn::from_fn(|_| Ok(Instance::new(4u8))), vec![]);
    match builder.build() {
        Err(MakhzanError::AlreadyRegistered(e)) => assert_eq!(e.key, b),
        Err(other) => panic!("Expected AlreadyRegistered, got: {other:?}"),
        Ok(_) => panic!("Expected AlreadyRegistered, got a container"),
    }
}

#[test]
fn singleton_that_asks_for_itself_gets_a_cycle_fault() {
    let container = Container::builder()
        .singleton_with::<u32>("u32", |r| {
            let again: u32 = resolve(r, "u32")?;
            Ok(again + 1)
        })
        .build()
        .unwrap();
    match container.resolve::<u32>("u32") {
        Err(MakhzanError::CircularDependency(e)) => {
            let key = DependencyKey::of::<u32>("u32");
            assert_eq!(e.chain, vec![key, key]);
        }
        other => panic!("Expected CircularDependency, got: {other:?}"),
    }
    // the fault is the outcome of the one run
    assert!(matches!(container.resolve::<u32>("u32"), Err(MakhzanError::CircularDependency(_))));
}

#[test]
fn factories_that_ask_for_each_other_get_a_cycle_fault() {
    let container = Container::builder()
        .singleton_with::<u32>("u32", |r| {
            let other: u64 = resolve(r, "u64")?;
            Ok(other as u32)
        })
        .transient_with::<u64>("u64", |r| {
            let other: u32 = resolve(r, "u32")?;
            Ok(other as u64)
        })
        .build()
        .unwrap();
    match container.resolve::<u64>("u64") {
        Err(MakhzanError::CircularDependency(e)) => {
            let first = DependencyKey::of::<u64>("u64");
            let second = DependencyKey::of::<u32>("u32");
            assert_eq!(e.chain, vec![first, second, first]);
        }
        other => panic!("Expected CircularDependency, got: {other:?}"),
    }
}

#[test]
fn once_factory_refuses_a_resolution_in_which_its_key_is_not_running() {
    let key = DependencyKey::of::<u32>("u32");
    let factory = FactoryFn::once::<u32, _>(key, |_| Ok(7));
    match factory.call(&Resolution::new(&Fixed(1))) {
        Err(MakhzanError::ConstructionFailed { key: refused, source }) => {
            assert_eq!(refused, key);
            assert_eq!(
                source,
                "A factory that runs once was run while its own key was not being resolved"
            );
        }
        Err(other) => panic!("Expected ConstructionFailed, got: {other:?}"),
        Ok(_) => panic!("Expected ConstructionFailed, got an instance"),
    }
    // registered under its key, the container counts it as running and the factory runs
    let mut builder = Container::builder();
    builder.register_singleton(key, factory, vec![]);
    let container = builder.build().unwrap();
    assert_eq!(container.resolve::<u32>("u32").unwrap(), 7);
}

/// A resolver that goes to no container: it keeps every factory from coming back.
struct Closed(u32);

impl Resolver for Closed {
    fn guards(&self, _key: DependencyKey) -> bool {
        true
    }

    fn resolve_key(&self, _key: &DependencyKey) -> Result<Instance, MakhzanError> {
        Ok(Instance::new(self.0))
    }
}

#[test]
fn once_factory_runs_where_its_key_is_running() {
    let key = DependencyKey::of::<u32>("u32");
    let runs = Arc::new(AtomicU32::new(0));
    let counted = runs.clone();
    let factory = FactoryFn::once::<u32, _>(key, move |r| {
        counted.fetch_add(1, Ordering::SeqCst);
        resolve::<u32>(r, "u32")
    });
    let closed = Closed(8);
    for _ in 0..2 {
        let resolution = Resolution::within(&closed, vec![DependencyKey::of::<u8>("u8"), key]);
        assert!(resolution.is_running(&key));
        assert_eq!(factory.call(&resolution).ok().unwrap().downcast::<u32>().ok(), Some(8));
    }
    assert_eq!(runs.load(Ordering::SeqCst), 1);
}

#[test]
fn once_factory_under_another_key_is_refused_by_the_container() {
    let own = DependencyKey::of::<u32>("u32");
    let other = DependencyKey::of::<u64>("u64");
    let mut builder = Container::builder();
    builder.register_singleton(other, FactoryFn::once::<u32, _>(own, |_| Ok(7)), vec![]);
    let container = builder.build().unwrap();
    match container.resolve_internal(&other) {
        Err(MakhzanError::ConstructionFailed { key, .. }) => assert_eq!(key, own),
        Err(fault) => panic!("Expected ConstructionFailed, got: {fault:?}"),
        Ok(_) => panic!("Expected ConstructionFailed, got an instance"),
    }
}

#[test]
fn singleton_through_the_provider_interface_runs_once_when_made_to() {
    let key = DependencyKey::of::<u32>("u32");
    let runs = Arc::new(AtomicU32::new(0));
    let counted = runs.clone();
    let once = FactoryFn::once::<u32, _>(key, move |_| {
        counted.fetch_add(1, Ordering::SeqCst);
        Ok(42)
    });
    let mut builder = Container::builder();
    builder.register_singleton(key, once, vec![]);
    let container = builder.build().unwrap();
    for _ in 0..3 {
        assert_eq!(container.resolve::<u32>("u32").unwrap(), 42);
    }
    assert_eq!(runs.load(Ordering::SeqCst), 1);
}

#[test]
fn failure_of_the_first_run_is_kept() {
    let runs = Arc::new(AtomicU32::new(0));
    let counted = runs.clone();
    let container = Container::builder()
        .singleton_with::<u32>("u32", move |_| {
            let n = counted.fetch_add(1, Ordering::SeqCst);
            Err(MakhzanError::ConstructionFailed {
                key: DependencyKey::of::<u32>("u32"),
                source: format!("run {n}"),
            })
        })
        .build()
        .unwrap();
    for _ in 0..3 {
        match container.resolve::<u32>("u32") {
            Err(MakhzanError::ConstructionFailed { source, .. }) => assert_eq!(source, "run 0"),
            other => panic!("Expected ConstructionFailed, got: {other:?}"),
        }
    }
    assert_eq!(runs.load(Ordering::SeqCst), 1);
}

#[test]
fn alias_keys_are_among_the_suggestions() {
    struct Port;
    let mut builder = Container::builder();
    let port = DependencyKey::of::<Port>("DatabasePort");
    builder.register_alias(port, DependencyKey::of::<u8>("u8"));
    let container = builder.build().unwrap();
    match container.resolve::<u64>("Database") {
        Err(MakhzanError::NotRegistered(e)) => {
            assert_eq!(e.suggestions, vec![port]);
        }
        other => panic!("Expected NotRegistered, got: {other:?}"),
    }
}

struct Counting(AtomicU32);

impl Recipe for Counting {
    fn create(&self, resolution: &Resolution<'_>) -> Result<Instance, MakhzanError> {
        let base: u32 = resolve(resolution.resolver(), "u32")?;
        Ok(Instance::new(base + self.0.fetch_add(1, Ordering::SeqCst)))
    }
}

#[test]
fn factory_of_a_recipe_of_ones_own() {
    let factory = FactoryFn::new(Box::new(Counting(AtomicU32::new(0))));
    let fixed = Fixed(10);
    let resolution = Resolution::new(&fixed);
    assert_eq!(factory.call(&resolution).ok().unwrap().downcast::<u32>().ok(), Some(10));
    assert_eq!(factory.call(&resolution).ok().unwrap().downcast::<u32>().ok(), Some(11));
    // registered, it is run by the container on every resolution
    let mut builder = Container::builder();
    let count = DependencyKey::named::<u32>("u32", "count");
    builder.register_transient(count, factory, vec![]);
    builder.register_singleton(
        DependencyKey::of::<u32>("u32"),
        FactoryFn::of_value(100u32),
        vec![],
    );
    let container = builder.build().unwrap();
    let first = container.resolve_internal(&count).ok().unwrap().downcast::<u32>().ok();
    assert_eq!(first, Some(102));
}

#[test]
fn resolution_outside_a_container_has_nothing_running() {
    let fixed = Fixed(3);
    let resolution = Resolution::new(&fixed);
    let key = DependencyKey::of::<u32>("u32");
    assert!(!resolution.is_running(&key));
    let answer = resolution.resolver().resolve_key(&key);
    assert_eq!(answer.ok().unwrap().downcast::<u32>().ok(), Some(3));
}

#[test]
fn factory_constructors_yield_what_they_say() {
    let nothing_running = Resolution::new(&Fixed(9));
    let value = FactoryFn::of_value(5u8).call(&nothing_running);
    assert_eq!(value.ok().unwrap().downcast::<u8>().ok(), Some(5));
    let fresh = FactoryFn::fresh::<u32, _>(|r| resolve::<u32>(r, "u32"));
    assert_eq!(fresh.call(&nothing_running).ok().unwrap().downcast::<u32>().ok(), Some(9));
    let failing = FactoryFn::fresh::<u32, _>(|r| resolve::<u32>(r, "other"));
    assert!(matches!(failing.call(&nothing_running), Err(MakhzanError::ContainerFrozen)));
}

fn is_send_and_sync<T: Send + Sync>() {}

#[test]
fn container_can_be_shared_between_threads() {
    is_send_and_sync::<Container>();
    is_send_and_sync::<MakhzanError>();
    is_send_and_sync::<FactoryFn>();
    is_send_and_sync::<Instance>();
}
