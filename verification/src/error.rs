//! Faults reported by the container.
//!
//! Every fault is a value that carries the keys and lifetimes it is about, so
//! that a caller can render it or act on it.

use crate::collections::copy_keys;
use crate::key::DependencyKey;
use crate::rendering::joined;
use crate::scope::Scope;
use crate::text::push_text;
use vstd::prelude::*;

verus! {

/// A requested dependency was never registered.
#[derive(Debug, Clone)]
pub struct NotRegisteredError {
    /// The dependency that was requested.
    pub requested: DependencyKey,
    /// What required this dependency, if known.
    pub required_by: Option<DependencyKey>,
    /// Registered keys with a similar name.
    pub suggestions: Vec<DependencyKey>,
}

/// A dependency cycle was found.
#[derive(Debug, Clone)]
pub struct CircularDependencyError {
    /// The keys along the cycle; the first and the last are the same key.
    pub chain: Vec<DependencyKey>,
}

/// A dependency would not live as long as its consumer.
#[derive(Debug, Clone)]
pub struct ScopeMismatchError {
    /// The dependency being injected.
    pub dependency: DependencyKey,
    pub dependency_scope: Scope,
    /// Where it is being injected.
    pub consumer: DependencyKey,
    pub consumer_scope: Scope,
}

/// A key was registered twice while overriding was not allowed.
#[derive(Debug, Clone)]
pub struct AlreadyRegisteredError {
    pub key: DependencyKey,
}

/// Every fault the container can report.
#[derive(Debug, Clone)]
pub enum MakhzanError {
    /// Requested dependency was never registered.
    NotRegistered(NotRegisteredError),
    /// Circular dependency: found while validating the graph, or met while
    /// resolving, where a factory asks for a key whose factory is running.
    CircularDependency(CircularDependencyError),
    /// A shorter-lived dependency would be injected into a longer-lived consumer.
    ScopeMismatch(ScopeMismatchError),
    /// A factory failed, or built a value of another type than was asked for.
    ConstructionFailed { key: DependencyKey, source: String },
    /// Dependency was already registered (when override is disabled).
    AlreadyRegistered(AlreadyRegisteredError),
    /// Container is already built and cannot be modified.
    ContainerFrozen,
}

/// The lines that list suggestions: one line per key.
pub open spec fn suggestion_lines(suggestions: Seq<DependencyKey>) -> Seq<char>
    decreases suggestions.len(),
{
    if suggestions.len() == 0 {
        Seq::empty()
    } else {
        suggestion_lines(suggestions.drop_last()) + "\n    - "@ + suggestions.last().text()
    }
}

/// The display names of a sequence of keys.
pub open spec fn display_names(keys: Seq<DependencyKey>) -> Seq<Seq<char>> {
    keys.map_values(|key: DependencyKey| key.spec_display_name())
}

impl NotRegisteredError {
    /// The part of the message that says what was requested and by whom.
    pub open spec fn spec_request_lines(&self) -> Seq<char> {
        "Dependency not registered: "@ + self.requested.text() + match self.required_by {
            Some(parent) => "\n  Required by: "@ + parent.text(),
            None => Seq::empty(),
        }
    }

    /// The part of the message that lists the suggestions, if there are any.
    pub open spec fn spec_suggestion_lines(&self) -> Seq<char> {
        if self.suggestions@.len() > 0 {
            "\n  Did you mean one of:"@ + suggestion_lines(self.suggestions@)
        } else {
            Seq::empty()
        }
    }

    /// The message: what was requested, by whom, what may have been meant,
    /// and a hint.
    pub open spec fn spec_message(&self) -> Seq<char> {
        self.spec_request_lines() + self.spec_suggestion_lines()
            + "\n  Hint: Did you forget to call .register::<"@
            + self.requested.spec_display_name() + ">()?"@
    }

    fn write_request_lines(&self, message: &mut String)
        ensures
            final(message)@ == old(message)@ + self.spec_request_lines(),
    {
        push_text(message, "Dependency not registered: ");
        self.requested.write_to(message);
        match self.required_by {
            Some(parent) => {
                push_text(message, "\n  Required by: ");
                parent.write_to(message);
            },
            None => {
                assert(message@ =~= old(message)@ + self.spec_request_lines());
            },
        }
    }

    fn write_suggestion_lines(&self, message: &mut String)
        ensures
            final(message)@ == old(message)@ + self.spec_suggestion_lines(),
    {
        let n = self.suggestions.len();
        if n == 0 {
            return ;
        }
        push_text(message, "\n  Did you mean one of:");
        let ghost start = message@;
        let mut i: usize = 0;
        while i < n
            invariant
                n == self.suggestions@.len(),
                i <= n,
                message@ == start + suggestion_lines(self.suggestions@.take(i as int)),
            decreases n - i,
        {
            proof {
                assert(self.suggestions@.take(i as int + 1).drop_last() =~= self.suggestions@.take(
                    i as int,
                ));
            }
            push_text(message, "\n    - ");
            self.suggestions[i].write_to(message);
            i = i + 1;
        }
        assert(self.suggestions@.take(n as int) =~= self.suggestions@);
    }

    /// The message of this fault.
    pub fn message(&self) -> (message: String)
        ensures
            message@ == self.spec_message(),
    {
        let mut message = String::new();
        self.write_request_lines(&mut message);
        self.write_suggestion_lines(&mut message);
        push_text(&mut message, "\n  Hint: Did you forget to call .register::<");
        push_text(&mut message, self.requested.display_name());
        push_text(&mut message, ">()?");
        message
    }
}

impl CircularDependencyError {
    /// The message: the display names along the chain, joined by arrows, and
    /// a hint.
    pub open spec fn spec_message(&self) -> Seq<char> {
        "Circular dependency detected:\n  "@ + joined(display_names(self.chain@), " → "@)
            + "\n  Hint: Consider using lazy injection or restructuring your dependencies"@
    }

    /// The message of this fault.
    pub fn message(&self) -> (message: String)
        ensures
            message@ == self.spec_message(),
    {
        let mut message = String::new();
        push_text(&mut message, "Circular dependency detected:\n  ");
        let ghost start = message@;
        let ghost names = display_names(self.chain@);
        let n = self.chain.len();
        let mut i: usize = 0;
        while i < n
            invariant
                n == self.chain@.len(),
                i <= n,
                names == display_names(self.chain@),
                message@ == start + joined(names.take(i as int), " → "@),
            decreases n - i,
        {
            proof {
                assert(names.take(i as int + 1).drop_last() =~= names.take(i as int));
            }
            if i > 0 {
                push_text(&mut message, " → ");
            }
            push_text(&mut message, self.chain[i].display_name());
            i = i + 1;
        }
        assert(names.take(n as int) =~= names);
        push_text(
            &mut message,
            "\n  Hint: Consider using lazy injection or restructuring your dependencies",
        );
        message
    }
}

impl ScopeMismatchError {
    /// The first line: what cannot be injected into what.
    pub open spec fn spec_headline(&self) -> Seq<char> {
        "Scope mismatch: cannot inject "@ + self.dependency.text() + " ("@
            + self.dependency_scope.spec_label() + ") into "@ + self.consumer.text() + " ("@
            + self.consumer_scope.spec_label() + ")"@
    }

    /// The second line: the rule that is broken.
    pub open spec fn spec_rule(&self) -> Seq<char> {
        "\n  A "@ + self.consumer_scope.spec_label() + " dependency cannot depend on a "@
            + self.dependency_scope.spec_label() + " dependency"@
    }

    /// The third line: what to change.
    pub open spec fn spec_hint(&self) -> Seq<char> {
        "\n  Hint: Change "@ + self.dependency.text() + " to "@ + self.consumer_scope.spec_label()
            + " or wider"@
    }

    /// The message: headline, rule and hint.
    pub open spec fn spec_message(&self) -> Seq<char> {
        self.spec_headline() + self.spec_rule() + self.spec_hint()
    }

    fn write_headline(&self, message: &mut String)
        ensures
            final(message)@ == old(message)@ + self.spec_headline(),
    {
        push_text(message, "Scope mismatch: cannot inject ");
        self.dependency.write_to(message);
        push_text(message, " (");
        push_text(message, self.dependency_scope.label());
        push_text(message, ") into ");
        self.consumer.write_to(message);
        push_text(message, " (");
        push_text(message, self.consumer_scope.label());
        push_text(message, ")");
    }

    fn write_rule(&self, message: &mut String)
        ensures
            final(message)@ == old(message)@ + self.spec_rule(),
    {
        push_text(message, "\n  A ");
        push_text(message, self.consumer_scope.label());
        push_text(message, " dependency cannot depend on a ");
        push_text(message, self.dependency_scope.label());
        push_text(message, " dependency");
    }

    fn write_hint(&self, message: &mut String)
        ensures
            final(message)@ == old(message)@ + self.spec_hint(),
    {
        push_text(message, "\n  Hint: Change ");
        self.dependency.write_to(message);
        push_text(message, " to ");
        push_text(message, self.consumer_scope.label());
        push_text(message, " or wider");
    }

    /// The message of this fault.
    pub fn message(&self) -> (message: String)
        ensures
            message@ == self.spec_message(),
    {
        let mut message = String::new();
        self.write_headline(&mut message);
        self.write_rule(&mut message);
        self.write_hint(&mut message);
        message
    }
}

impl AlreadyRegisteredError {
    /// The message: the key that was taken, and a hint.
    pub open spec fn spec_message(&self) -> Seq<char> {
        "Dependency already registered: "@ + self.key.text()
            + "\n  Hint: Use .override_::<T>() to explicitly override, or enable allow_override in settings"@
    }

    /// The message of this fault.
    pub fn message(&self) -> (message: String)
        ensures
            message@ == self.spec_message(),
    {
        let mut message = String::new();
        push_text(&mut message, "Dependency already registered: ");
        self.key.write_to(&mut message);
        push_text(
            &mut message,
            "\n  Hint: Use .override_::<T>() to explicitly override, or enable allow_override in settings",
        );
        message
    }
}

impl MakhzanError {
    /// Whether this fault says what `other` says: the same kind of fault
    /// about the same keys and lifetimes, with the same lists and texts.
    pub open spec fn alike(&self, other: &MakhzanError) -> bool {
        match (*self, *other) {
            (MakhzanError::NotRegistered(a), MakhzanError::NotRegistered(b)) => {
                &&& a.requested == b.requested
                &&& a.required_by == b.required_by
                &&& a.suggestions@ == b.suggestions@
            },
            (MakhzanError::CircularDependency(a), MakhzanError::CircularDependency(b)) => a.chain@
                == b.chain@,
            (MakhzanError::ScopeMismatch(a), MakhzanError::ScopeMismatch(b)) => {
                &&& a.dependency == b.dependency
                &&& a.dependency_scope == b.dependency_scope
                &&& a.consumer == b.consumer
                &&& a.consumer_scope == b.consumer_scope
            },
            (
                MakhzanError::ConstructionFailed { key: a, source: first },
                MakhzanError::ConstructionFailed { key: b, source: second },
            ) => a == b && first@ == second@,
            (MakhzanError::AlreadyRegistered(a), MakhzanError::AlreadyRegistered(b)) => a.key
                == b.key,
            (MakhzanError::ContainerFrozen, MakhzanError::ContainerFrozen) => true,
            _ => false,
        }
    }

    /// A copy of this fault that says what this fault says.
    pub fn duplicate(&self) -> (copy: MakhzanError)
        ensures
            copy.alike(self),
    {
        match self {
            MakhzanError::NotRegistered(e) => MakhzanError::NotRegistered(
                NotRegisteredError {
                    requested: e.requested,
                    required_by: e.required_by,
                    suggestions: copy_keys(&e.suggestions),
                },
            ),
            MakhzanError::CircularDependency(e) => MakhzanError::CircularDependency(
                CircularDependencyError { chain: copy_keys(&e.chain) },
            ),
            MakhzanError::ScopeMismatch(e) => MakhzanError::ScopeMismatch(
                ScopeMismatchError {
                    dependency: e.dependency,
                    dependency_scope: e.dependency_scope,
                    consumer: e.consumer,
                    consumer_scope: e.consumer_scope,
                },
            ),
            MakhzanError::ConstructionFailed { key, source } => MakhzanError::ConstructionFailed {
                key: *key,
                source: source.clone(),
            },
            MakhzanError::AlreadyRegistered(e) => MakhzanError::AlreadyRegistered(
                AlreadyRegisteredError { key: e.key },
            ),
            MakhzanError::ContainerFrozen => MakhzanError::ContainerFrozen,
        }
    }

    /// The message of each fault.
    pub open spec fn spec_message(&self) -> Seq<char> {
        match self {
            MakhzanError::NotRegistered(e) => e.spec_message(),
            MakhzanError::CircularDependency(e) => e.spec_message(),
            MakhzanError::ScopeMismatch(e) => e.spec_message(),
            MakhzanError::ConstructionFailed { key, source } => "Failed to construct "@ + key.text()
                + ": "@ + source@,
            MakhzanError::AlreadyRegistered(e) => e.spec_message(),
            MakhzanError::ContainerFrozen =>
                "Container is already built. Register dependencies before calling .build()"@,
        }
    }

    /// The message of this fault.
    pub fn message(&self) -> (message: String)
        ensures
            message@ == self.spec_message(),
    {
        match self {
            MakhzanError::NotRegistered(e) => e.message(),
            MakhzanError::CircularDependency(e) => e.message(),
            MakhzanError::ScopeMismatch(e) => e.message(),
            MakhzanError::ConstructionFailed { key, source } => {
                let mut message = String::new();
                push_text(&mut message, "Failed to construct ");
                key.write_to(&mut message);
                push_text(&mut message, ": ");
                push_text(&mut message, source.as_str());
                message
            },
            MakhzanError::AlreadyRegistered(e) => e.message(),
            MakhzanError::ContainerFrozen => {
                let mut message = String::new();
                push_text(
                    &mut message,
                    "Container is already built. Register dependencies before calling .build()",
                );
                message
            },
        }
    }
}

} // verus!
