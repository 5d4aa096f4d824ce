use makhzan::container::resolve;
use makhzan::container::Container;
use makhzan::error::MakhzanError;
use makhzan::registry::Resolver;
use std::sync::Arc;
use std::sync::atomic::AtomicU32;
use std::sync::atomic::Ordering;

#[derive(Clone, Debug, PartialEq)]
struct Config {
    url: String,
    debug: bool,
}

struct Logger {
    id: u32,
}

struct Database {
    id: u32,
    url: String,
    logger: Arc<Logger>,
}

struct Repo {
    db: Arc<Database>,
}

struct Service {
    id: u32,
    repo: Arc<Repo>,
    logger: Arc<Logger>,
}

fn next(counter: &Arc<AtomicU32>) -> u32 {
    counter.fetch_add(1, Ordering::SeqCst)
}

fn application(counter: Arc<AtomicU32>) -> Result<Container, MakhzanError> {
    let logger_ids = counter.clone();
    let database_ids = counter.clone();
    let service_ids = counter.clone();
    Container::builder()
        .singleton_value("Config", Config { url: "x".to_string(), debug: true })
        .singleton_with::<Arc<Logger>>("Arc<Logger>", move |_| {
            Ok(Arc::new(Logger { id: next(&logger_ids) }))
        })
        .singleton_with::<Arc<Database>>("Arc<Database>", move |r: &dyn Resolver| {
            let config: Config = resolve(r, "Config")?;
            let logger: Arc<Logger> = resolve(r, "Arc<Logger>")?;
            Ok(Arc::new(Database { id: next(&database_ids), url: config.url, logger }))
        })
        .scoped_with::<Arc<Repo>>("Arc<Repo>", |r: &dyn Resolver| {
            let db: Arc<Database> = resolve(r, "Arc<Database>")?;
            Ok(Arc::new(Repo { db }))
        })
        .transient_with::<Service>("Service", move |r: &dyn Resolver| {
            let repo: Arc<Repo> = resolve(r, "Arc<Repo>")?;
            let logger: Arc<Logger> = resolve(r, "Arc<Logger>")?;
            Ok(Service { id: next(&service_ids), repo, logger })
        })
        .build()
}

#[test]
fn services_are_fresh_and_share_their_singletons() {
    let container = application(Arc::new(AtomicU32::new(0))).unwrap();
    let config: Config = container.resolve("Config").unwrap();
    assert_eq!(config, Config { url: "x".to_string(), debug: true });

    let scope = container.create_scope();
    let first: Service = scope.resolve("Service").unwrap();
    let second: Service = scope.resolve("Service").unwrap();

    assert_ne!(first.id, second.id);
    assert!(Arc::ptr_eq(&first.logger, &second.logger));
    assert!(Arc::ptr_eq(&first.repo.db, &second.repo.db));
    assert!(Arc::ptr_eq(&first.logger, &first.repo.db.logger));
    assert_eq!(first.repo.db.url, "x");
    assert_eq!(first.logger.id, second.logger.id);
    assert_eq!(first.repo.db.id, second.repo.db.id);
}

#[test]
fn singleton_runs_once_over_many_calls() {
    let runs = Arc::new(AtomicU32::new(0));
    let container = Container::builder()
        .singleton_with::<u32>("u32", {
            let runs = runs.clone();
            move |_| {
                runs.fetch_add(1, Ordering::SeqCst);
                Ok(7)
            }
        })
        .build()
        .unwrap();
    assert_eq!(runs.load(Ordering::SeqCst), 0);
    let scope = container.create_scope();
    for _ in 0..50 {
        assert_eq!(container.resolve::<u32>("u32").unwrap(), 7);
        assert_eq!(scope.resolve::<u32>("u32").unwrap(), 7);
    }
    assert_eq!(runs.load(Ordering::SeqCst), 1);
}

#[test]
fn transient_runs_once_per_call() {
    let runs = Arc::new(AtomicU32::new(0));
    let container = Container::builder()
        .transient_with::<u32>("u32", {
            let runs = runs.clone();
            move |_| Ok(runs.fetch_add(1, Ordering::SeqCst))
        })
        .build()
        .unwrap();
    for expected in 0..5u32 {
        assert_eq!(container.resolve::<u32>("u32").unwrap(), expected);
    }
    assert_eq!(runs.load(Ordering::SeqCst), 5);
}
