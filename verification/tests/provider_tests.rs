use makhzan::key::DependencyKey;
use makhzan::provider::Provider;
use makhzan::provider::ProviderRegistry;
use makhzan::registry::FactoryFn;
use makhzan::registry::Instance;

// Mock registry for testing providers
struct MockRegistry {
    registered_count: usize,
    alias_count: usize,
}

impl MockRegistry {
    fn new() -> Self {
        Self { registered_count: 0, alias_count: 0 }
    }
}

impl ProviderRegistry for MockRegistry {
    fn register_singleton(
        &mut self,
        _key: DependencyKey,
        _factory: FactoryFn,
        _deps: Vec<DependencyKey>,
    ) {
        self.registered_count += 1;
    }

    fn register_scoped(
        &mut self,
        _key: DependencyKey,
        _factory: FactoryFn,
        _deps: Vec<DependencyKey>,
    ) {
        self.registered_count += 1;
    }

    fn register_transient(
        &mut self,
        _key: DependencyKey,
        _factory: FactoryFn,
        _deps: Vec<DependencyKey>,
    ) {
        self.registered_count += 1;
    }

    fn register_alias(&mut self, _from: DependencyKey, _to: DependencyKey) {
        self.alias_count += 1;
    }
}

// Test provider
struct TestProvider;

impl Provider for TestProvider {
    fn register(&self, builder: &mut dyn ProviderRegistry) {
        builder.register_singleton(
            DependencyKey::of::<String>("alloc::string::String"),
            FactoryFn::from_fn(|_| Ok(Instance::new(String::from("hello")))),
            vec![],
        );

        builder.register_transient(
            DependencyKey::of::<i32>("i32"),
            FactoryFn::from_fn(|_| Ok(Instance::new(42i32))),
            vec![],
        );
    }

    fn name(&self) -> &str {
        "provider_tests::TestProvider"
    }
}

#[test]
fn provider_registers_dependencies() {
    let mut registry = MockRegistry::new();
    let provider = TestProvider;

    provider.register(&mut registry);

    assert_eq!(registry.registered_count, 2);
    assert_eq!(registry.alias_count, 0);
}

#[test]
fn provider_has_name() {
    let provider = TestProvider;
    assert!(provider.name().contains("TestProvider"));
}

#[test]
fn provider_registers_into_a_builder() {
    let mut builder = makhzan::container::Container::builder();
    TestProvider.register(&mut builder);
    let container = builder.build().unwrap();
    assert_eq!(container.resolve::<String>("alloc::string::String").unwrap(), "hello");
    assert_eq!(container.resolve::<i32>("i32").unwrap(), 42);
}
