//! Components and the registry that holds them by id.
//!
//! The registry keeps its components in the order they were registered and never holds two
//! with the same id.

use vstd::prelude::*;
use std::collections::HashMap;
use crate::table::{
    has_key, key_seq, keys_unique, lemma_keys_no_duplicates, lemma_lookup_at, lemma_lookup_insert,
    lemma_lookup_remove, lookup, remove_entry, Table, TableKey,
};
use crate::json::{copy_json, copy_opt_json};
use crate::text::join3;

verus! {

/// Unique identifier for a component
#[derive(Debug, Clone, Hash, PartialEq, Eq)]
pub struct ComponentId(pub String);

impl View for ComponentId {
    type V = Seq<char>;

    open spec fn view(&self) -> Seq<char> {
        self.0@
    }
}

impl TableKey for ComponentId {
    fn same_key(&self, other: &Self) -> (r: bool) {
        self.0 == other.0
    }

    fn copy_key(&self) -> (r: Self) {
        ComponentId(self.0.clone())
    }
}

/// Represents the state of a component
#[derive(Debug, Clone)]
pub enum ComponentState {
    Uninitialized,
    Initializing,
    Active,
    Pausing,
    Paused,
    Resuming,
    Deactivating,
    Inactive,
    Error(String),
}

/// Basic properties that all components should have
#[derive(Debug, Clone)]
pub struct ComponentProps {
    pub id: ComponentId,
    pub name: String,
    pub version: String,
    pub description: Option<String>,
}

/// Configuration for a component
#[derive(Debug, Clone)]
pub struct ComponentConfig {
    pub enabled: bool,
    pub auto_start: bool,
    pub settings: HashMap<String, String>,
}

/// Message types for inter-component communication
#[derive(Debug)]
pub enum ComponentMessage {
    /// Request data from another component
    GetData(String),
    /// Response containing data
    DataResponse(String, serde_json::Value),
    /// Command to perform an action
    Command(String, Option<serde_json::Value>),
    /// Event notification
    Event(String, Option<serde_json::Value>),
    /// Custom message
    Custom(serde_json::Value),
}

impl Clone for ComponentMessage {
    fn clone(&self) -> (r: Self) {
        match self {
            ComponentMessage::GetData(k) => ComponentMessage::GetData(k.clone()),
            ComponentMessage::DataResponse(k, v) => ComponentMessage::DataResponse(
                k.clone(),
                copy_json(v),
            ),
            ComponentMessage::Command(c, v) => ComponentMessage::Command(c.clone(), copy_opt_json(v)),
            ComponentMessage::Event(e, v) => ComponentMessage::Event(e.clone(), copy_opt_json(v)),
            ComponentMessage::Custom(v) => ComponentMessage::Custom(copy_json(v)),
        }
    }
}

/// Abstract trait that all components must implement
pub trait Component: Send + Sync {
    /// The component's identifier.
    spec fn component_id(&self) -> Seq<char>;

    /// Get the component's unique identifier
    fn id(&self) -> (r: &ComponentId)
        ensures
            r@ == self.component_id(),
    ;

    /// Get the component's properties
    fn props(&self) -> &ComponentProps;

    /// Get the current state of the component
    fn state(&self) -> ComponentState;

    /// Initialize the component
    fn initialize(&mut self, config: ComponentConfig) -> Result<(), String>;

    /// Start the component
    fn start(&mut self) -> Result<(), String>;

    /// Pause the component
    fn pause(&mut self) -> Result<(), String>;

    /// Resume the component
    fn resume(&mut self) -> Result<(), String>;

    /// Stop the component
    fn stop(&mut self) -> Result<(), String>;

    /// Destroy the component and clean up resources
    fn destroy(&mut self) -> Result<(), String>;

    /// Handle a custom message (for inter-component communication)
    fn handle_message(&mut self, message: ComponentMessage) -> Result<
        Option<ComponentMessage>,
        String,
    >;
}

/// A component that keeps its properties and a state, and follows the lifecycle: it is
/// active once initialized, started or resumed, paused once paused, inactive once
/// stopped, and uninitialized once destroyed. It answers no message.
#[derive(Clone)]
pub struct BasicComponent {
    id: ComponentId,
    props: ComponentProps,
    state: ComponentState,
}

impl BasicComponent {
    /// A new uninitialized component with the given properties; its id is theirs.
    pub fn new(props: ComponentProps) -> (c: Self)
        ensures
            c.component_id() == props.id@,
    {
        BasicComponent { id: props.id.copy_key(), props, state: ComponentState::Uninitialized }
    }
}

impl Component for BasicComponent {
    closed spec fn component_id(&self) -> Seq<char> {
        self.id@
    }

    fn id(&self) -> (r: &ComponentId) {
        &self.id
    }

    fn props(&self) -> &ComponentProps {
        &self.props
    }

    fn state(&self) -> ComponentState {
        self.state.clone()
    }

    fn initialize(&mut self, config: ComponentConfig) -> Result<(), String> {
        self.state = ComponentState::Active;
        Ok(())
    }

    fn start(&mut self) -> Result<(), String> {
        self.state = ComponentState::Active;
        Ok(())
    }

    fn pause(&mut self) -> Result<(), String> {
        self.state = ComponentState::Paused;
        Ok(())
    }

    fn resume(&mut self) -> Result<(), String> {
        self.state = ComponentState::Active;
        Ok(())
    }

    fn stop(&mut self) -> Result<(), String> {
        self.state = ComponentState::Inactive;
        Ok(())
    }

    fn destroy(&mut self) -> Result<(), String> {
        self.state = ComponentState::Uninitialized;
        Ok(())
    }

    fn handle_message(&mut self, message: ComponentMessage) -> Result<
        Option<ComponentMessage>,
        String,
    > {
        Ok(None)
    }
}

/// A registered component. The box is held as it was given (of the component type the
/// parameter names), so storing it never re-types it.
pub struct ComponentEntry<C: ?Sized = dyn Component>(pub Box<C>);

/// Registered components by id, in the order they were registered.
pub type RegisteredComponents = Seq<(Seq<char>, ComponentEntry)>;

/// The component registered under `id`, if any.
pub open spec fn registered_component(s: RegisteredComponents, id: Seq<char>) -> Option<
    Box<dyn Component>,
> {
    match lookup(s, id) {
        Some(e) => Some(e.0),
        None => None,
    }
}

/// A component that `register` stored under `key` is what a read of the key gives back,
/// and reads of other ids are unchanged.
pub proof fn lemma_registered_component_found(
    before: RegisteredComponents,
    key: Seq<char>,
    entry: ComponentEntry,
    q: Seq<char>,
)
    requires
        keys_unique(before),
        !has_key(before, key),
    ensures
        keys_unique(before.push((key, entry))),
        registered_component(before.push((key, entry)), q) === if q == key {
            Some(entry.0)
        } else {
            registered_component(before, q)
        },
{
    lemma_lookup_insert(before, key, entry, q);
}

/// Once a component is unregistered nothing is found under its id, and reads of other ids
/// are unchanged.
pub proof fn lemma_unregistered_component_gone(
    before: RegisteredComponents,
    id: Seq<char>,
    q: Seq<char>,
)
    requires
        keys_unique(before),
    ensures
        keys_unique(remove_entry(before, id)),
        registered_component(remove_entry(before, id), q) === if q == id {
            None
        } else {
            registered_component(before, q)
        },
{
    lemma_lookup_remove(before, id, q);
}

/// Registry for managing components
pub struct ComponentRegistry {
    components: Table<ComponentId, ComponentEntry>,
}

impl View for ComponentRegistry {
    type V = RegisteredComponents;

    closed spec fn view(&self) -> RegisteredComponents {
        self.components@
    }
}

impl ComponentRegistry {
    /// Create a new component registry
    pub fn new() -> (r: Self)
        ensures
            r@ === Seq::<(Seq<char>, ComponentEntry)>::empty(),
            keys_unique(r@),
    {
        ComponentRegistry { components: Table::new() }
    }

    /// Confirms what every registry keeps: no two components share an id.
    pub fn check_invariants(&self)
        ensures
            keys_unique(self@),
    {
        self.components.check_keys();
    }

    /// Register a component with the registry under its id; no component may have that id
    /// already
    pub fn register(&mut self, component: Box<dyn Component>) -> (r: Result<(), String>)
        ensures
            has_key(old(self)@, component.component_id()) ==> {
                &&& r matches Err(e) && e@ == "Component with ID "@ + component.component_id()
                    + " already registered"@
                &&& final(self)@ === old(self)@
            },
            !has_key(old(self)@, component.component_id()) ==> {
                &&& r is Ok
                &&& final(self)@.len() == old(self)@.len() + 1
                &&& final(self)@.drop_last() === old(self)@
                &&& key_seq(final(self)@) == key_seq(old(self)@).push(component.component_id())
                &&& registered_component(final(self)@, component.component_id()) === Some(component)
                &&& forall|q: Seq<char>| q != component.component_id() ==> registered_component(
                    final(self)@,
                    q,
                ) === registered_component(old(self)@, q)
            },
            keys_unique(final(self)@),
    {
        let id = component.id().copy_key();
        if self.components.contains_key(&id) {
            return Err(join3("Component with ID ", id.0.as_str(), " already registered"));
        }
        self.components.check_keys();
        let ghost before = self@;
        let ghost cid = id@;
        let entry = ComponentEntry(component);
        self.components.insert(id, entry);
        assert(self@.drop_last() =~= before);
        assert(key_seq(self@) =~= key_seq(before).push(cid));
        proof {
            assert forall|q: Seq<char>| true implies registered_component(self@, q) === if q == cid {
                Some(entry.0)
            } else {
                registered_component(before, q)
            } by {
                lemma_registered_component_found(before, cid, entry, q);
            }
        }
        Ok(())
    }

    /// Unregister a component from the registry, handing it back
    pub fn unregister(&mut self, id: &ComponentId) -> (r: Result<Option<Box<dyn Component>>, String>)
        ensures
            r matches Ok(c) && c === registered_component(old(self)@, id@),
            final(self)@ === remove_entry(old(self)@, id@),
            keys_unique(final(self)@),
    {
        match self.components.remove(id) {
            Some(e) => Ok(Some(e.0)),
            None => Ok(None),
        }
    }

    /// Get a component by its ID
    pub fn get(&self, id: &ComponentId) -> (r: Result<Option<&Box<dyn Component>>, String>)
        ensures
            r matches Ok(c) && match c {
                Some(x) => registered_component(self@, id@) === Some(*x),
                None => registered_component(self@, id@).is_none(),
            },
    {
        self.components.check_keys();
        match self.components.find(id) {
            Some(i) => {
                proof {
                    lemma_lookup_at(self.components@, i as int);
                }
                Ok(Some(&self.components.value_at(i).0))
            },
            None => Ok(None),
        }
    }

    /// List all registered component IDs, in the order they were registered
    pub fn list_ids(&self) -> (r: Vec<ComponentId>)
        ensures
            r@.map_values(|c: ComponentId| c@) == key_seq(self@),
            r@.map_values(|c: ComponentId| c@).no_duplicates(),
    {
        self.components.check_keys();
        proof {
            lemma_keys_no_duplicates(self@);
        }
        self.components.keys()
    }

    /// Get the number of registered components
    pub fn len(&self) -> (n: usize)
        ensures
            n == self@.len(),
    {
        self.components.len()
    }

    /// Check if the registry is empty
    pub fn is_empty(&self) -> (b: bool)
        ensures
            b == (self@.len() == 0),
    {
        self.len() == 0
    }
}

/// Helper trait for components that can be cloned; the copy comes boxed, ready to register
pub trait ClonableComponent: Component {
    fn clone_box(&self) -> ComponentEntry;
}

impl<T: Component + Clone + 'static> ClonableComponent for T {
    fn clone_box(&self) -> (e: ComponentEntry)
        ensures
            exists|c: T| cloned::<T>(*self, c) && e == ComponentEntry::<dyn Component>(Box::new(c)),
    {
        let c = self.clone();
        let e = ComponentEntry::<dyn Component>(Box::new(c));
        assert(cloned::<T>(*self, c));
        e
    }
}

} // verus!
