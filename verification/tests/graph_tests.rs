use makhzan::error::MakhzanError;
use makhzan::graph::DependencyInfo;
use makhzan::graph::GraphValidator;
use makhzan::key::DependencyKey;
use makhzan::scope::Scope;
use makhzan::similarity::levenshtein_close;
use makhzan::similarity::names_similar;
use makhzan::similarity::str_contains;

fn dep_info(key: DependencyKey, scope: Scope, deps: Vec<DependencyKey>) -> DependencyInfo {
    DependencyInfo { key, dependencies: deps, scope }
}

fn make_graph(infos: Vec<DependencyInfo>) -> Vec<DependencyInfo> {
    infos
}

struct Database;
struct UserRepo;
struct UserService;
struct A;
struct B;
struct C;
struct D;

fn database() -> DependencyKey {
    DependencyKey::of::<Database>("graph_tests::Database")
}

fn user_repo() -> DependencyKey {
    DependencyKey::of::<UserRepo>("graph_tests::UserRepo")
}

fn user_service() -> DependencyKey {
    DependencyKey::of::<UserService>("graph_tests::UserService")
}

fn a() -> DependencyKey {
    DependencyKey::of::<A>("graph_tests::A")
}

fn b() -> DependencyKey {
    DependencyKey::of::<B>("graph_tests::B")
}

fn c() -> DependencyKey {
    DependencyKey::of::<C>("graph_tests::C")
}

fn d() -> DependencyKey {
    DependencyKey::of::<D>("graph_tests::D")
}

#[test]
fn valid_simple_graph() {
    let graph = make_graph(vec![
        dep_info(database(), Scope::Singleton, vec![]),
        dep_info(user_repo(), Scope::Singleton, vec![database()]),
        dep_info(user_service(), Scope::Scoped, vec![user_repo()]),
    ]);

    let mut validator = GraphValidator::new(graph);
    assert!(validator.validate().is_ok());
}

#[test]
fn detect_circular_dependency() {
    // A -> B -> C -> A
    let graph = make_graph(vec![
        dep_info(a(), Scope::Transient, vec![b()]),
        dep_info(b(), Scope::Transient, vec![c()]),
        dep_info(c(), Scope::Transient, vec![a()]),
    ]);

    let mut validator = GraphValidator::new(graph);
    let result = validator.validate();

    assert!(result.is_err());
    match result.unwrap_err() {
        MakhzanError::CircularDependency(err) => {
            assert!(err.chain.len() >= 3);
        }
        other => panic!("Expected CircularDependency, got: {other:?}"),
    }
}

#[test]
fn detect_self_dependency() {
    // A -> A
    let graph = make_graph(vec![dep_info(a(), Scope::Transient, vec![a()])]);

    let mut validator = GraphValidator::new(graph);
    assert!(validator.validate().is_err());
}

#[test]
fn detect_missing_dependency() {
    // A -> B, but B is not registered
    let graph = make_graph(vec![dep_info(a(), Scope::Transient, vec![b()])]);

    let mut validator = GraphValidator::new(graph);
    let result = validator.validate();

    assert!(result.is_err());
    match result.unwrap_err() {
        MakhzanError::NotRegistered(err) => {
            assert!(err.requested.display_name().contains("B"));
            assert!(err.required_by.is_some());
        }
        other => panic!("Expected NotRegistered, got: {other:?}"),
    }
}

#[test]
fn detect_scope_mismatch() {
    // Singleton -> Transient
    let graph = make_graph(vec![
        dep_info(database(), Scope::Transient, vec![]),
        dep_info(user_service(), Scope::Singleton, vec![database()]),
    ]);

    let mut validator = GraphValidator::new(graph);
    let result = validator.validate();

    assert!(result.is_err());
    match result.unwrap_err() {
        MakhzanError::ScopeMismatch(err) => {
            assert_eq!(err.consumer_scope, Scope::Singleton);
            assert_eq!(err.dependency_scope, Scope::Transient);
        }
        other => panic!("Expected ScopeMismatch, got: {other:?}"),
    }
}

#[test]
fn singleton_depends_on_singleton_ok() {
    let graph = make_graph(vec![
        dep_info(database(), Scope::Singleton, vec![]),
        dep_info(user_service(), Scope::Singleton, vec![database()]),
    ]);

    let mut validator = GraphValidator::new(graph);
    assert!(validator.validate().is_ok());
}

#[test]
fn transient_depends_on_singleton_ok() {
    let graph = make_graph(vec![
        dep_info(database(), Scope::Singleton, vec![]),
        dep_info(user_service(), Scope::Transient, vec![database()]),
    ]);

    let mut validator = GraphValidator::new(graph);
    assert!(validator.validate().is_ok());
}

#[test]
fn diamond_dependency_ok() {
    //     A
    //    / \
    //   B   C
    //    \ /
    //     D
    let graph = make_graph(vec![
        dep_info(d(), Scope::Singleton, vec![]),
        dep_info(b(), Scope::Singleton, vec![d()]),
        dep_info(c(), Scope::Singleton, vec![d()]),
        dep_info(a(), Scope::Singleton, vec![b(), c()]),
    ]);

    let mut validator = GraphValidator::new(graph);
    assert!(validator.validate().is_ok());
}

#[test]
fn levenshtein_close_check() {
    assert!(levenshtein_close("UserService", "UserServise")); // typo
    assert!(levenshtein_close("Database", "Databse")); // typo
    assert!(!levenshtein_close("Database", "Logger")); // different
}

#[test]
fn self_dependency_chain_is_the_key_twice() {
    let mut validator = GraphValidator::new(vec![dep_info(a(), Scope::Transient, vec![a()])]);
    match validator.validate() {
        Err(MakhzanError::CircularDependency(err)) => {
            assert_eq!(err.chain, vec![a(), a()]);
        }
        other => panic!("Expected CircularDependency, got: {other:?}"),
    }
}

#[test]
fn two_key_cycle_reports_both_keys() {
    let mut validator = GraphValidator::new(vec![
        dep_info(a(), Scope::Transient, vec![b()]),
        dep_info(b(), Scope::Transient, vec![a()]),
    ]);
    match validator.validate() {
        Err(MakhzanError::CircularDependency(err)) => {
            assert_eq!(err.chain, vec![a(), b(), a()]);
            assert_eq!(err.chain.first(), err.chain.last());
        }
        other => panic!("Expected CircularDependency, got: {other:?}"),
    }
}

#[test]
fn cycle_chain_starts_where_the_cycle_starts() {
    // D -> A -> B -> C -> A: the path to the cycle is not part of the chain
    let mut validator = GraphValidator::new(vec![
        dep_info(d(), Scope::Transient, vec![a()]),
        dep_info(a(), Scope::Transient, vec![b()]),
        dep_info(b(), Scope::Transient, vec![c()]),
        dep_info(c(), Scope::Transient, vec![a()]),
    ]);
    match validator.validate() {
        Err(MakhzanError::CircularDependency(err)) => {
            assert_eq!(err.chain, vec![a(), b(), c(), a()]);
        }
        other => panic!("Expected CircularDependency, got: {other:?}"),
    }
}

#[test]
fn unreached_cycle_is_still_found() {
    let mut validator = GraphValidator::new(vec![
        dep_info(database(), Scope::Singleton, vec![]),
        dep_info(user_service(), Scope::Transient, vec![database()]),
        dep_info(a(), Scope::Transient, vec![b()]),
        dep_info(b(), Scope::Transient, vec![a()]),
    ]);
    assert!(matches!(validator.validate(), Err(MakhzanError::CircularDependency(_))));
}

#[test]
fn missing_dependency_names_key_and_consumer() {
    let mut validator = GraphValidator::new(vec![
        dep_info(database(), Scope::Singleton, vec![]),
        dep_info(user_service(), Scope::Transient, vec![database(), user_repo()]),
    ]);
    match validator.validate() {
        Err(MakhzanError::NotRegistered(err)) => {
            assert_eq!(err.requested, user_repo());
            assert_eq!(err.required_by, Some(user_service()));
            // both names share "graph_tests::" with the requested one: 13 of 21
            // and 14 of 24 bytes agree in place
            assert_eq!(err.suggestions, vec![database(), user_service()]);
        }
        other => panic!("Expected NotRegistered, got: {other:?}"),
    }
}

#[test]
fn scope_mismatch_names_both_keys() {
    let mut validator = GraphValidator::new(vec![
        dep_info(database(), Scope::Transient, vec![]),
        dep_info(user_service(), Scope::Singleton, vec![database()]),
    ]);
    match validator.validate() {
        Err(MakhzanError::ScopeMismatch(err)) => {
            assert_eq!(err.consumer, user_service());
            assert_eq!(err.dependency, database());
            assert_eq!(err.consumer_scope, Scope::Singleton);
            assert_eq!(err.dependency_scope, Scope::Transient);
        }
        other => panic!("Expected ScopeMismatch, got: {other:?}"),
    }
}

#[test]
fn every_pair_of_lifetimes() {
    let scopes = [Scope::Singleton, Scope::Scoped, Scope::Transient];
    for consumer in scopes {
        for dependency in scopes {
            let mut validator = GraphValidator::new(vec![
                dep_info(database(), dependency, vec![]),
                dep_info(user_service(), consumer, vec![database()]),
            ]);
            let outcome = validator.validate();
            if consumer > dependency {
                assert!(matches!(outcome, Err(MakhzanError::ScopeMismatch(_))));
            } else {
                assert!(outcome.is_ok());
            }
        }
    }
}

#[test]
fn lifetime_is_checked_before_going_deeper() {
    // A (singleton) -> B (transient) -> A: the mismatch is met before the cycle
    let mut validator = GraphValidator::new(vec![
        dep_info(a(), Scope::Singleton, vec![b()]),
        dep_info(b(), Scope::Transient, vec![a()]),
    ]);
    assert!(matches!(validator.validate(), Err(MakhzanError::ScopeMismatch(_))));
}

#[test]
fn validating_twice_gives_the_same_answer() {
    let mut validator = GraphValidator::new(vec![dep_info(a(), Scope::Transient, vec![b()])]);
    let first = validator.validate();
    let second = validator.validate();
    assert!(matches!(first, Err(MakhzanError::NotRegistered(_))));
    assert!(matches!(second, Err(MakhzanError::NotRegistered(_))));
    let mut fine = GraphValidator::new(vec![dep_info(a(), Scope::Transient, vec![])]);
    assert!(fine.validate().is_ok());
    assert!(fine.validate().is_ok());
}

#[test]
fn empty_graph_is_valid() {
    let mut validator = GraphValidator::new(vec![]);
    assert!(validator.validate().is_ok());
}

#[test]
fn first_registration_of_a_key_counts() {
    let mut validator = GraphValidator::new(vec![
        dep_info(a(), Scope::Transient, vec![]),
        dep_info(a(), Scope::Transient, vec![a()]),
    ]);
    assert!(validator.validate().is_ok());
}

#[test]
fn closeness_by_the_numbers() {
    // 10 of 11 bytes agree in place: 90%
    assert!(levenshtein_close("UserService", "UserServise"));
    // "abcde" and "abxyz": 2 of 5 agree, 40%
    assert!(!levenshtein_close("abcde", "abxyz"));
    // "abcde" and "abcyz": 3 of 5 agree, 60%
    assert!(levenshtein_close("abcde", "abcyz"));
    // lengths differ by 4
    assert!(!levenshtein_close("abcdefgh", "abcd"));
    // lengths differ by 3, and 5 of 8 agree: 62%
    assert!(levenshtein_close("abcdefgh", "abcde"));
    assert!(levenshtein_close("", ""));
    assert!(!levenshtein_close("", "abc"));
}

#[test]
fn similarity_ignores_case() {
    assert!(names_similar("DATABASE", "database"));
    assert!(names_similar("my_app::UserService", "userservice"));
    assert!(names_similar("db", "my_app::DB"));
    assert!(!names_similar("Logger", "Database"));
}

const NODE_NAMES: [&str; 6] = ["n0", "n1", "n2", "n3", "n4", "n5"];
const ALL_SCOPES: [Scope; 3] = [Scope::Transient, Scope::Scoped, Scope::Singleton];

fn node(i: usize) -> DependencyKey {
    DependencyKey::named::<u8>("node", NODE_NAMES[i])
}

/// Whether a walk along declared dependencies leads from `from` back to `target`.
fn reaches(edges: &Vec<Vec<usize>>, registered: usize, from: usize, target: usize, steps: usize) -> bool {
    if from >= registered || steps == 0 {
        return false;
    }
    edges[from].iter().any(|&next| next == target || reaches(edges, registered, next, target, steps - 1))
}

#[test]
fn validation_agrees_with_the_definition_on_many_small_graphs() {
    let mut state: u64 = 0x2545_f491_4f6c_dd1d;
    let mut draw = |bound: u64| -> usize {
        state = state.wrapping_mul(6364136223846793005).wrapping_add(1442695040888963407);
        ((state >> 33) % bound) as usize
    };
    let mut valid_seen = 0;
    let mut faults_seen = [0usize; 3];
    for _ in 0..4000 {
        let registered = 1 + draw(5);
        let mut edges: Vec<Vec<usize>> = Vec::new();
        let mut scopes: Vec<Scope> = Vec::new();
        for _ in 0..registered {
            let count = draw(3);
            // targets range over one key more than is registered
            edges.push((0..count).map(|_| draw(registered as u64 + 1)).collect());
            scopes.push(ALL_SCOPES[draw(3)]);
        }
        let complete = edges.iter().all(|targets| targets.iter().all(|&t| t < registered));
        let consistent = (0..registered).all(|from| {
            edges[from].iter().all(|&to| to >= registered || !(scopes[from] > scopes[to]))
        });
        let acyclic = (0..registered).all(|start| !reaches(&edges, registered, start, start, registered));
        let infos: Vec<DependencyInfo> = (0..registered)
            .map(|i| dep_info(node(i), scopes[i], edges[i].iter().map(|&t| node(t)).collect()))
            .collect();
        let mut validator = GraphValidator::new(infos);
        match validator.validate() {
            Ok(()) => {
                assert!(complete && consistent && acyclic);
                valid_seen += 1;
            }
            Err(MakhzanError::NotRegistered(e)) => {
                assert!(!complete);
                assert_eq!(e.requested, node(registered));
                let parent = e.required_by.unwrap();
                let from = (0..registered).find(|&i| node(i) == parent).unwrap();
                assert!(edges[from].contains(&registered));
                faults_seen[0] += 1;
            }
            Err(MakhzanError::CircularDependency(e)) => {
                assert!(!acyclic);
                assert!(e.chain.len() >= 2);
                assert_eq!(e.chain.first(), e.chain.last());
                for pair in e.chain.windows(2) {
                    let from = (0..registered).find(|&i| node(i) == pair[0]).unwrap();
                    let to = (0..registered).find(|&i| node(i) == pair[1]).unwrap();
                    assert!(edges[from].contains(&to));
                }
                faults_seen[1] += 1;
            }
            Err(MakhzanError::ScopeMismatch(e)) => {
                assert!(!consistent);
                let from = (0..registered).find(|&i| node(i) == e.consumer).unwrap();
                let to = (0..registered).find(|&i| node(i) == e.dependency).unwrap();
                assert!(edges[from].contains(&to));
                assert_eq!(e.consumer_scope, scopes[from]);
                assert_eq!(e.dependency_scope, scopes[to]);
                assert!(e.consumer_scope > e.dependency_scope);
                faults_seen[2] += 1;
            }
            Err(other) => panic!("unexpected fault: {other:?}"),
        }
    }
    assert!(valid_seen > 0);
    assert!(faults_seen.iter().all(|&n| n > 0));
}

#[test]
fn single_key_validation_reports_the_cycle_from_where_it_starts() {
    let graph = || {
        make_graph(vec![
            dep_info(a(), Scope::Singleton, vec![b()]),
            dep_info(b(), Scope::Singleton, vec![c()]),
            dep_info(c(), Scope::Singleton, vec![b()]),
            dep_info(d(), Scope::Singleton, vec![]),
        ])
    };
    // from outside the cycle: the chain is the cycle alone
    let mut validator = GraphValidator::new(graph());
    match validator.validate_key(&a()) {
        Err(MakhzanError::CircularDependency(e)) => assert_eq!(e.chain, vec![b(), c(), b()]),
        other => panic!("Expected CircularDependency, got: {other:?}"),
    }
    // from inside the cycle: the chain starts at the key asked for
    let mut validator = GraphValidator::new(graph());
    match validator.validate_key(&c()) {
        Err(MakhzanError::CircularDependency(e)) => assert_eq!(e.chain, vec![c(), b(), c()]),
        other => panic!("Expected CircularDependency, got: {other:?}"),
    }
    // a key that reaches no cycle is validated, and another can follow it
    let mut validator = GraphValidator::new(graph());
    assert!(validator.validate_key(&d()).is_ok());
    assert!(validator.validate_key(&d()).is_ok());
    assert!(matches!(validator.validate_key(&b()), Err(MakhzanError::CircularDependency(_))));
}

#[test]
fn single_key_validation_of_an_unregistered_key() {
    let mut validator = GraphValidator::new(make_graph(vec![dep_info(
        a(),
        Scope::Singleton,
        vec![],
    )]));
    match validator.validate_key(&b()) {
        Err(MakhzanError::NotRegistered(e)) => {
            assert_eq!(e.requested, b());
            assert_eq!(e.required_by, None);
        }
        other => panic!("Expected NotRegistered, got: {other:?}"),
    }
}

#[test]
fn containment_is_that_of_the_characters() {
    let samples = ["", "a", "ab", "ba", "aab", "abab", "h\u{e9}llo", "\u{e9}", "llo", "\u{65e5}\u{672c}\u{8a9e}", "\u{672c}", "xyz"];
    for hay in samples {
        for needle in samples {
            assert_eq!(str_contains(hay, needle), hay.contains(needle), "{needle:?} in {hay:?}");
        }
    }
    assert!(str_contains("userservice", "service"));
    assert!(!str_contains("service", "userservice"));
}
