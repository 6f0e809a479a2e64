//! Agents, supervisors and the orchestrator that registers them.
//!
//! A supervisor answers a task request by forwarding it to the first agent it manages that
//! declares the task's type; the forwarded requests wait in its outbox until the runtime
//! delivers them. The orchestrator keeps regular agents and supervisors apart, looks an id
//! up among the regular agents first, starts supervisors before regular agents and stops
//! them after.

use vstd::prelude::*;
use std::time::Duration;
use crate::ids::{lemma_numbered_injective, numbered, numbered_id};
use crate::json::{
    copy_json, copy_opt_json, json_object, json_object_of, json_string, json_string_array,
    json_text, json_text_array,
};
use crate::table::{
    has_key, key_seq, keys_unique, lemma_lookup_at, lemma_lookup_insert, lemma_lookup_remove,
    lookup, remove_entry, Table, TableKey,
};
use crate::text::{
    contains_text, copy_opt_string, copy_strings, join2, join3, option_text, texts, unit_result_text,
};

verus! {

/// Unique identifier for an agent
#[derive(Debug, Clone, Hash, PartialEq, Eq)]
pub struct AgentId(pub String);

impl View for AgentId {
    type V = Seq<char>;

    open spec fn view(&self) -> Seq<char> {
        self.0@
    }
}

impl TableKey for AgentId {
    fn same_key(&self, other: &Self) -> (r: bool) {
        self.0 == other.0
    }

    fn copy_key(&self) -> (r: Self) {
        AgentId(self.0.clone())
    }
}

/// An optional agent id taken as its characters.
pub open spec fn option_agent_id(id: Option<AgentId>) -> Option<Seq<char>> {
    match id {
        Some(a) => Some(a@),
        None => None,
    }
}

/// Represents a message that can be sent between agents
pub enum AgentMessage {
    /// Request to perform a task
    TaskRequest {
        task_id: String,
        task_type: String,
        payload: serde_json::Value,
        reply_to: Option<AgentId>,
    },
    /// Response to a task request
    TaskResponse {
        task_id: String,
        success: bool,
        result: Option<serde_json::Value>,
        error: Option<String>,
    },
    /// Event notification
    Event { event_type: String, payload: serde_json::Value },
    /// Command to control agent behavior
    Command { command: String, args: serde_json::Value },
    /// Heartbeat/ping message
    Ping,
    /// Response to ping
    Pong,
}

/// A message with its texts taken as their characters.
pub enum AgentMessageView {
    TaskRequest {
        task_id: Seq<char>,
        task_type: Seq<char>,
        payload: serde_json::Value,
        reply_to: Option<Seq<char>>,
    },
    TaskResponse {
        task_id: Seq<char>,
        success: bool,
        result: Option<serde_json::Value>,
        error: Option<Seq<char>>,
    },
    Event { event_type: Seq<char>, payload: serde_json::Value },
    Command { command: Seq<char>, args: serde_json::Value },
    Ping,
    Pong,
}

impl View for AgentMessage {
    type V = AgentMessageView;

    open spec fn view(&self) -> AgentMessageView {
        match self {
            AgentMessage::TaskRequest { task_id, task_type, payload, reply_to } => {
                AgentMessageView::TaskRequest {
                    task_id: task_id@,
                    task_type: task_type@,
                    payload: *payload,
                    reply_to: option_agent_id(*reply_to),
                }
            },
            AgentMessage::TaskResponse { task_id, success, result, error } => {
                AgentMessageView::TaskResponse {
                    task_id: task_id@,
                    success: *success,
                    result: *result,
                    error: option_text(*error),
                }
            },
            AgentMessage::Event { event_type, payload } => AgentMessageView::Event {
                event_type: event_type@,
                payload: *payload,
            },
            AgentMessage::Command { command, args } => AgentMessageView::Command {
                command: command@,
                args: *args,
            },
            AgentMessage::Ping => AgentMessageView::Ping,
            AgentMessage::Pong => AgentMessageView::Pong,
        }
    }
}

impl AgentMessage {
    /// A copy of the message.
    pub fn duplicate(&self) -> (r: AgentMessage)
        ensures
            r@ == self@,
    {
        match self {
            AgentMessage::TaskRequest { task_id, task_type, payload, reply_to } => {
                AgentMessage::TaskRequest {
                    task_id: task_id.clone(),
                    task_type: task_type.clone(),
                    payload: copy_json(payload),
                    reply_to: match reply_to {
                        Some(a) => Some(a.copy_key()),
                        None => None,
                    },
                }
            },
            AgentMessage::TaskResponse { task_id, success, result, error } => {
                AgentMessage::TaskResponse {
                    task_id: task_id.clone(),
                    success: *success,
                    result: copy_opt_json(result),
                    error: copy_opt_string(error),
                }
            },
            AgentMessage::Event { event_type, payload } => AgentMessage::Event {
                event_type: event_type.clone(),
                payload: copy_json(payload),
            },
            AgentMessage::Command { command, args } => AgentMessage::Command {
                command: command.clone(),
                args: copy_json(args),
            },
            AgentMessage::Ping => AgentMessage::Ping,
            AgentMessage::Pong => AgentMessage::Pong,
        }
    }
}

/// Defines the capabilities of an agent
pub struct AgentCapabilities {
    /// Types of tasks this agent can handle
    pub task_types: Vec<String>,
    pub max_concurrent_tasks: usize,
    pub supported_events: Vec<String>,
}

/// Capabilities with their texts taken as their characters.
pub struct CapabilitiesView {
    pub task_types: Seq<Seq<char>>,
    pub max_concurrent_tasks: usize,
    pub supported_events: Seq<Seq<char>>,
}

impl View for AgentCapabilities {
    type V = CapabilitiesView;

    open spec fn view(&self) -> CapabilitiesView {
        CapabilitiesView {
            task_types: texts(self.task_types@),
            max_concurrent_tasks: self.max_concurrent_tasks,
            supported_events: texts(self.supported_events@),
        }
    }
}

impl AgentCapabilities {
    /// A copy of the capabilities.
    pub fn duplicate(&self) -> (r: AgentCapabilities)
        ensures
            r@ == self@,
    {
        AgentCapabilities {
            task_types: copy_strings(&self.task_types),
            max_concurrent_tasks: self.max_concurrent_tasks,
            supported_events: copy_strings(&self.supported_events),
        }
    }
}

/// Configuration for an agent
pub struct AgentConfig {
    pub id: AgentId,
    pub name: String,
    pub agent_type: String,
    pub capabilities: AgentCapabilities,
    pub max_restarts: usize,
    pub restart_delay: Duration,
}

/// A configuration with its texts taken as their characters.
pub struct AgentConfigView {
    pub id: Seq<char>,
    pub name: Seq<char>,
    pub agent_type: Seq<char>,
    pub capabilities: CapabilitiesView,
    pub max_restarts: usize,
    pub restart_delay: Duration,
}

impl View for AgentConfig {
    type V = AgentConfigView;

    open spec fn view(&self) -> AgentConfigView {
        AgentConfigView {
            id: self.id@,
            name: self.name@,
            agent_type: self.agent_type@,
            capabilities: self.capabilities@,
            max_restarts: self.max_restarts,
            restart_delay: self.restart_delay,
        }
    }
}

impl AgentConfig {
    /// A copy of the configuration.
    pub fn duplicate(&self) -> (r: AgentConfig)
        ensures
            r@ == self@,
    {
        AgentConfig {
            id: self.id.copy_key(),
            name: self.name.clone(),
            agent_type: self.agent_type.clone(),
            capabilities: self.capabilities.duplicate(),
            max_restarts: self.max_restarts,
            restart_delay: self.restart_delay,
        }
    }
}

/// State of an agent
#[derive(Debug, Clone, PartialEq, Eq)]
pub enum AgentState {
    Initialized,
    Starting,
    Running,
    Pausing,
    Paused,
    Stopping,
    Stopped,
    Error(String),
    Terminating,
}

/// A state with its error text taken as its characters.
pub enum AgentStateView {
    Initialized,
    Starting,
    Running,
    Pausing,
    Paused,
    Stopping,
    Stopped,
    Error(Seq<char>),
    Terminating,
}

impl View for AgentState {
    type V = AgentStateView;

    open spec fn view(&self) -> AgentStateView {
        match self {
            AgentState::Initialized => AgentStateView::Initialized,
            AgentState::Starting => AgentStateView::Starting,
            AgentState::Running => AgentStateView::Running,
            AgentState::Pausing => AgentStateView::Pausing,
            AgentState::Paused => AgentStateView::Paused,
            AgentState::Stopping => AgentStateView::Stopping,
            AgentState::Stopped => AgentStateView::Stopped,
            AgentState::Error(e) => AgentStateView::Error(e@),
            AgentState::Terminating => AgentStateView::Terminating,
        }
    }
}

impl AgentState {
    /// A copy of the state.
    pub fn duplicate(&self) -> (r: AgentState)
        ensures
            r@ == self@,
    {
        match self {
            AgentState::Initialized => AgentState::Initialized,
            AgentState::Starting => AgentState::Starting,
            AgentState::Running => AgentState::Running,
            AgentState::Pausing => AgentState::Pausing,
            AgentState::Paused => AgentState::Paused,
            AgentState::Stopping => AgentState::Stopping,
            AgentState::Stopped => AgentState::Stopped,
            AgentState::Error(e) => AgentState::Error(e.clone()),
            AgentState::Terminating => AgentState::Terminating,
        }
    }
}

/// Trait that all agents must implement
pub trait Agent: Send + Sync {
    /// The agent's identifier.
    spec fn agent_id(&self) -> Seq<char>;

    /// The agent's configuration.
    spec fn agent_config(&self) -> AgentConfigView;

    /// The agent's current state.
    spec fn agent_state(&self) -> AgentStateView;

    /// The agent's capabilities.
    spec fn agent_capabilities(&self) -> CapabilitiesView;

    /// What `start` answers when called on the agent as it is.
    spec fn start_result(&self) -> Result<(), Seq<char>>;

    /// The state that `start` leaves the agent in.
    spec fn state_after_start(&self) -> AgentStateView;

    /// What `stop` answers when called on the agent as it is.
    spec fn stop_result(&self) -> Result<(), Seq<char>>;

    /// The state that `stop` leaves the agent in.
    spec fn state_after_stop(&self) -> AgentStateView;

    /// The state that `terminate` leaves the agent in.
    spec fn state_after_terminate(&self) -> AgentStateView;

    /// Get the agent's unique identifier
    fn id(&self) -> (r: &AgentId)
        ensures
            r@ == self.agent_id(),
    ;

    /// Get the agent's configuration
    fn config(&self) -> (r: &AgentConfig)
        ensures
            r@ == self.agent_config(),
    ;

    /// Get the current state of the agent
    fn state(&self) -> (r: AgentState)
        ensures
            r@ == self.agent_state(),
    ;

    /// Initialize the agent
    fn initialize(&mut self) -> Result<(), String>;

    /// Start the agent; it answers `start_result` and is left in `state_after_start`.
    fn start(&mut self) -> (r: Result<(), String>)
        ensures
            unit_result_text(r) == old(self).start_result(),
            final(self).agent_state() == old(self).state_after_start(),
    ;

    /// Pause the agent
    fn pause(&mut self) -> Result<(), String>;

    /// Resume the agent
    fn resume(&mut self) -> Result<(), String>;

    /// Stop the agent; it answers `stop_result` and is left in `state_after_stop`.
    fn stop(&mut self) -> (r: Result<(), String>)
        ensures
            unit_result_text(r) == old(self).stop_result(),
            final(self).agent_state() == old(self).state_after_stop(),
    ;

    /// Terminate the agent (clean shutdown); it is left in `state_after_terminate`.
    fn terminate(&mut self) -> (r: Result<(), String>)
        ensures
            final(self).agent_state() == old(self).state_after_terminate(),
    ;

    /// Handle an incoming message
    fn handle_message(&mut self, message: AgentMessage) -> Result<Option<AgentMessage>, String>;

    /// Get the agent's capabilities
    fn capabilities(&self) -> (r: &AgentCapabilities)
        ensures
            r@ == self.agent_capabilities(),
    ;
}

/// An optional message taken by its view.
pub open spec fn option_message(m: Option<AgentMessage>) -> Option<AgentMessageView> {
    match m {
        Some(x) => Some(x@),
        None => None,
    }
}

/// The answer of a simple agent named `id` to a message: a ping gets a pong, a task
/// request gets a successful response saying who processed which task type with which
/// payload, and anything else gets no answer.
pub open spec fn simple_reply(id: Seq<char>, m: AgentMessageView) -> Option<AgentMessageView> {
    match m {
        AgentMessageView::Ping => Some(AgentMessageView::Pong),
        AgentMessageView::TaskRequest { task_id, task_type, payload, .. } => Some(
            AgentMessageView::TaskResponse {
                task_id,
                success: true,
                result: Some(
                    json_object_of(
                        seq![
                            ("processed_by"@, json_text(id)),
                            ("task_type"@, json_text(task_type)),
                            ("payload"@, payload),
                        ],
                    ),
                ),
                error: None,
            },
        ),
        _ => None,
    }
}

/// A simple agent implementation that can be extended
pub struct SimpleAgent {
    id: AgentId,
    config: AgentConfig,
    state: AgentState,
    capabilities: AgentCapabilities,
}

impl SimpleAgent {
    /// A new agent in the `Initialized` state, with the configuration's id and capabilities.
    pub fn new(config: AgentConfig) -> (a: Self)
        ensures
            a.agent_id() == config@.id,
            a.agent_config() == config@,
            a.agent_state() == AgentStateView::Initialized,
            a.agent_capabilities() == config@.capabilities,
    {
        SimpleAgent {
            id: config.id.copy_key(),
            capabilities: config.capabilities.duplicate(),
            config,
            state: AgentState::Initialized,
        }
    }
}

impl Agent for SimpleAgent {
    closed spec fn agent_id(&self) -> Seq<char> {
        self.id@
    }

    closed spec fn agent_config(&self) -> AgentConfigView {
        self.config@
    }

    closed spec fn agent_state(&self) -> AgentStateView {
        self.state@
    }

    closed spec fn agent_capabilities(&self) -> CapabilitiesView {
        self.capabilities@
    }

    open spec fn start_result(&self) -> Result<(), Seq<char>> {
        Ok(())
    }

    open spec fn state_after_start(&self) -> AgentStateView {
        AgentStateView::Running
    }

    open spec fn stop_result(&self) -> Result<(), Seq<char>> {
        Ok(())
    }

    open spec fn state_after_stop(&self) -> AgentStateView {
        AgentStateView::Stopped
    }

    open spec fn state_after_terminate(&self) -> AgentStateView {
        AgentStateView::Stopped
    }

    fn id(&self) -> (r: &AgentId) {
        &self.id
    }

    fn config(&self) -> (r: &AgentConfig) {
        &self.config
    }

    fn state(&self) -> (r: AgentState) {
        self.state.duplicate()
    }

    fn initialize(&mut self) -> (r: Result<(), String>)
        ensures
            r is Ok,
            final(self).agent_state() == AgentStateView::Running,
            final(self).agent_id() == old(self).agent_id(),
            final(self).agent_config() == old(self).agent_config(),
            final(self).agent_capabilities() == old(self).agent_capabilities(),
    {
        self.state = AgentState::Running;
        Ok(())
    }

    fn start(&mut self) -> (r: Result<(), String>)
        ensures
            r is Ok,
            final(self).agent_state() == AgentStateView::Running,
            final(self).agent_id() == old(self).agent_id(),
            final(self).agent_config() == old(self).agent_config(),
            final(self).agent_capabilities() == old(self).agent_capabilities(),
    {
        self.state = AgentState::Running;
        Ok(())
    }

    fn pause(&mut self) -> (r: Result<(), String>)
        ensures
            r is Ok,
            final(self).agent_state() == AgentStateView::Paused,
            final(self).agent_id() == old(self).agent_id(),
            final(self).agent_config() == old(self).agent_config(),
            final(self).agent_capabilities() == old(self).agent_capabilities(),
    {
        self.state = AgentState::Paused;
        Ok(())
    }

    fn resume(&mut self) -> (r: Result<(), String>)
        ensures
            r is Ok,
            final(self).agent_state() == AgentStateView::Running,
            final(self).agent_id() == old(self).agent_id(),
            final(self).agent_config() == old(self).agent_config(),
            final(self).agent_capabilities() == old(self).agent_capabilities(),
    {
        self.state = AgentState::Running;
        Ok(())
    }

    fn stop(&mut self) -> (r: Result<(), String>)
        ensures
            r is Ok,
            final(self).agent_state() == AgentStateView::Stopped,
            final(self).agent_id() == old(self).agent_id(),
            final(self).agent_config() == old(self).agent_config(),
            final(self).agent_capabilities() == old(self).agent_capabilities(),
    {
        self.state = AgentState::Stopped;
        Ok(())
    }

    fn terminate(&mut self) -> (r: Result<(), String>)
        ensures
            r is Ok,
            final(self).agent_state() == AgentStateView::Stopped,
            final(self).agent_id() == old(self).agent_id(),
            final(self).agent_config() == old(self).agent_config(),
            final(self).agent_capabilities() == old(self).agent_capabilities(),
    {
        self.state = AgentState::Stopped;
        Ok(())
    }

    fn handle_message(&mut self, message: AgentMessage) -> (r: Result<Option<AgentMessage>, String>)
        ensures
            r matches Ok(reply) && option_message(reply) == simple_reply(
                old(self).agent_id(),
                message@,
            ),
            *final(self) == *old(self),
    {
        match message {
            AgentMessage::Ping => Ok(Some(AgentMessage::Pong)),
            AgentMessage::TaskRequest { task_id, task_type, payload, reply_to } => {
                let mut pairs: Vec<(String, serde_json::Value)> = Vec::new();
                pairs.push((String::from_str("processed_by"), json_string(self.id.0.clone())));
                pairs.push((String::from_str("task_type"), json_string(task_type.clone())));
                pairs.push((String::from_str("payload"), payload));
                proof {
                    reveal_strlit("processed_by");
                    reveal_strlit("task_type");
                    reveal_strlit("payload");
                }
                let ghost shown = pairs@.map_values(
                    |p: (String, serde_json::Value)| (p.0@, p.1),
                );
                assert(shown =~= seq![
                    ("processed_by"@, json_text(self.id@)),
                    ("task_type"@, json_text(task_type@)),
                    ("payload"@, payload),
                ]);
                let result = json_object(pairs);
                Ok(
                    Some(
                        AgentMessage::TaskResponse {
                            task_id,
                            success: true,
                            result: Some(result),
                            error: None,
                        },
                    ),
                )
            },
            _ => Ok(None),
        }
    }

    fn capabilities(&self) -> (r: &AgentCapabilities) {
        &self.capabilities
    }
}

/// Defines how a supervisor should handle agent failures
#[derive(Debug, Clone, Copy)]
pub enum RestartStrategy {
    /// Restart only the failed agent
    OneForOne,
    /// Restart all managed agents
    OneForAll,
    /// Restart agents with a certain delay
    RestartWithDelay(Duration),
}

/// A registered agent. The box is held as it was given (of the agent type the parameter
/// names), so storing it never re-types it.
pub struct AgentEntry<A: ?Sized = dyn Agent>(pub Box<A>);

impl AgentEntry<dyn Agent> {
    /// Boxes a simple agent as a registered entry.
    fn of_simple(agent: SimpleAgent) -> (e: AgentEntry)
        ensures
            e.0.agent_id() == agent.agent_id(),
            e.0.agent_config() == agent.agent_config(),
            e.0.agent_state() == agent.agent_state(),
    {
        let boxed: Box<dyn Agent> = Box::new(agent);
        let e = AgentEntry(boxed);
        e
    }

    /// Boxes a supervisor as a registered entry.
    fn of_supervisor(agent: SupervisorAgent) -> (e: AgentEntry)
        ensures
            e.0.agent_id() == agent.agent_id(),
            e.0.agent_config() == agent.agent_config(),
            e.0.agent_state() == agent.agent_state(),
    {
        let boxed: Box<dyn Agent> = Box::new(agent);
        let e = AgentEntry(boxed);
        e
    }
}

/// Registered agents by id, in the order they were added.
pub type ManagedAgents = Seq<(Seq<char>, AgentEntry)>;

/// The agent held by an optional entry.
pub open spec fn entry_agent(e: Option<AgentEntry>) -> Option<Box<dyn Agent>> {
    match e {
        Some(x) => Some(x.0),
        None => None,
    }
}

/// The managed agent at position `i` declares tasks of type `task_type`.
pub open spec fn handles_task(agents: ManagedAgents, i: int, task_type: Seq<char>) -> bool {
    agents[i].1.0.agent_capabilities().task_types.contains(task_type)
}

/// `i` is the first position of a managed agent that declares tasks of type `task_type`.
pub open spec fn first_capable(agents: ManagedAgents, task_type: Seq<char>, i: int) -> bool {
    &&& 0 <= i < agents.len()
    &&& handles_task(agents, i, task_type)
    &&& forall|j: int| 0 <= j < i ==> !#[trigger] handles_task(agents, j, task_type)
}

/// Some managed agent declares tasks of type `task_type`.
pub open spec fn some_capable(agents: ManagedAgents, task_type: Seq<char>) -> bool {
    exists|i: int| 0 <= i < agents.len() && #[trigger] handles_task(agents, i, task_type)
}

/// A managed agent handles a task type exactly when the type occurs anywhere among the task
/// types it declares.
pub proof fn lemma_handles_declared_types(agents: ManagedAgents, i: int, task_type: Seq<char>)
    ensures
        handles_task(agents, i, task_type) <==> exists|k: int|
            0 <= k < agents[i].1.0.agent_capabilities().task_types.len()
                && agents[i].1.0.agent_capabilities().task_types[k] == task_type,
{
}

/// A task type that a managed agent declares at any position of its task types is
/// routable, and the agent it is routed to stands no later than that agent: some first
/// capable agent exists, and every first capable agent is at or before it.
pub proof fn lemma_declared_type_is_routed(
    agents: ManagedAgents,
    task_type: Seq<char>,
    i: int,
    k: int,
)
    requires
        0 <= i < agents.len(),
        0 <= k < agents[i].1.0.agent_capabilities().task_types.len(),
        agents[i].1.0.agent_capabilities().task_types[k] == task_type,
    ensures
        some_capable(agents, task_type),
        exists|j: int| 0 <= j <= i && first_capable(agents, task_type, j),
        forall|j: int| #[trigger] first_capable(agents, task_type, j) ==> j <= i,
{
    let types = agents[i].1.0.agent_capabilities().task_types;
    assert(types.contains(task_type));
    assert(handles_task(agents, i, task_type));
    lemma_first_capable_at_most(agents, task_type, i);
    assert forall|j: int| #[trigger] first_capable(agents, task_type, j) implies j <= i by {
        if j > i {
            assert(!handles_task(agents, i, task_type));
        }
    }
}

/// Below a capable agent there is a first capable one.
proof fn lemma_first_capable_at_most(agents: ManagedAgents, task_type: Seq<char>, i: int)
    requires
        0 <= i < agents.len(),
        handles_task(agents, i, task_type),
    ensures
        exists|j: int| 0 <= j <= i && first_capable(agents, task_type, j),
    decreases i,
{
    if exists|j: int| 0 <= j < i && #[trigger] handles_task(agents, j, task_type) {
        let j = choose|j: int| 0 <= j < i && #[trigger] handles_task(agents, j, task_type);
        lemma_first_capable_at_most(agents, task_type, j);
    } else {
        assert(first_capable(agents, task_type, i));
    }
}

/// The response of a supervisor that forwarded task `task_id` to the agent named `to`.
pub open spec fn forwarded_response(task_id: Seq<char>, to: Seq<char>) -> AgentMessageView {
    AgentMessageView::TaskResponse {
        task_id,
        success: true,
        result: Some(json_object_of(seq![(" forwarded_to"@, json_text(to))])),
        error: None,
    }
}

/// The response of a supervisor that found no agent for tasks of type `task_type`.
pub open spec fn unroutable_response(task_id: Seq<char>, task_type: Seq<char>) -> AgentMessageView {
    AgentMessageView::TaskResponse {
        task_id,
        success: false,
        result: None,
        error: Some("No agent capable of handling task type: "@ + task_type),
    }
}

/// The response of a supervisor to the `list_agents` command.
pub open spec fn agent_list_response(agents: ManagedAgents) -> AgentMessageView {
    AgentMessageView::TaskResponse {
        task_id: "supervisor_list"@,
        success: true,
        result: Some(json_text_array(key_seq(agents))),
        error: None,
    }
}

/// What a supervisor answers a task request: a response to the same task that succeeds,
/// with no error and naming the agent it went to, when the task was forwarded; that fails,
/// with no result and an error naming the task type, when no agent can take it. Its answer
/// to `list_agents` succeeds with the managed agents' ids, in order.
pub proof fn lemma_supervisor_reply_shapes(
    task_id: Seq<char>,
    task_type: Seq<char>,
    to: Seq<char>,
    agents: ManagedAgents,
)
    ensures
        forwarded_response(task_id, to) == (AgentMessageView::TaskResponse {
            task_id,
            success: true,
            result: Some(json_object_of(seq![(" forwarded_to"@, json_text(to))])),
            error: None,
        }),
        unroutable_response(task_id, task_type) matches AgentMessageView::TaskResponse {
            task_id: t,
            success,
            result,
            error,
        } && t == task_id && !success && result is None && error == Some(
            "No agent capable of handling task type: "@ + task_type,
        ),
        agent_list_response(agents) matches AgentMessageView::TaskResponse {
            task_id: t,
            success,
            result,
            error,
        } && t == "supervisor_list"@ && success && error is None && result == Some(
            json_text_array(key_seq(agents)),
        ),
{
}

/// What a simple agent answers: `Pong` to `Ping`; to a task request, a successful response
/// to the same task, with no error, whose result names the agent, the task type and the
/// payload; nothing to any other message.
pub proof fn lemma_simple_reply_shapes(id: Seq<char>, m: AgentMessageView)
    ensures
        m is Ping ==> simple_reply(id, m) == Some(AgentMessageView::Pong),
        m matches AgentMessageView::TaskRequest { task_id, task_type, payload, .. } ==> simple_reply(
            id,
            m,
        ) == Some(
            AgentMessageView::TaskResponse {
                task_id,
                success: true,
                result: Some(
                    json_object_of(
                        seq![
                            ("processed_by"@, json_text(id)),
                            ("task_type"@, json_text(task_type)),
                            ("payload"@, payload),
                        ],
                    ),
                ),
                error: None,
            },
        ),
        !(m is Ping) && !(m is TaskRequest) ==> simple_reply(id, m) is None,
{
}

/// The state that stopping (or, with `terminate` set, terminating) the agent of `e`
/// leaves it in.
pub open spec fn state_after_shutdown(e: AgentEntry, terminate: bool) -> AgentStateView {
    if terminate {
        e.0.state_after_terminate()
    } else {
        e.0.state_after_stop()
    }
}

/// `after` holds the agents of `before`, in order, each stopped (or terminated).
pub open spec fn shut_down(before: ManagedAgents, after: ManagedAgents, terminate: bool) -> bool {
    &&& after.len() == before.len()
    &&& forall|j: int|
        0 <= j < before.len() ==> (#[trigger] after[j]).0 == before[j].0 && after[j].1.0.agent_state()
            == state_after_shutdown(before[j].1, terminate)
}

/// Supervisor agent that manages other agents
pub struct SupervisorAgent {
    id: AgentId,
    config: AgentConfig,
    state: AgentState,
    capabilities: AgentCapabilities,
    managed_agents: Table<AgentId, AgentEntry>,
    restart_strategy: RestartStrategy,
    outbox: Vec<(AgentId, AgentMessage)>,
}

impl SupervisorAgent {
    /// The agents this supervisor manages.
    pub closed spec fn managed(&self) -> ManagedAgents {
        self.managed_agents@
    }

    /// The task requests forwarded to managed agents and not yet delivered, each with the
    /// id of the agent it goes to.
    pub closed spec fn pending(&self) -> Seq<(Seq<char>, AgentMessageView)> {
        self.outbox@.map_values(|e: (AgentId, AgentMessage)| (e.0@, e.1@))
    }

    /// How the supervisor restarts failed agents.
    pub closed spec fn strategy(&self) -> RestartStrategy {
        self.restart_strategy
    }

    /// A new supervisor in the `Initialized` state that manages no agent yet and restarts
    /// only a failed agent.
    pub fn new(config: AgentConfig) -> (a: Self)
        ensures
            a.agent_id() == config@.id,
            a.agent_config() == config@,
            a.agent_state() == AgentStateView::Initialized,
            a.agent_capabilities() == config@.capabilities,
            a.managed() === Seq::<(Seq<char>, AgentEntry)>::empty(),
            a.pending() == Seq::<(Seq<char>, AgentMessageView)>::empty(),
            a.strategy() == RestartStrategy::OneForOne,
    {
        let a = SupervisorAgent {
            id: config.id.copy_key(),
            capabilities: config.capabilities.duplicate(),
            config,
            state: AgentState::Initialized,
            managed_agents: Table::new(),
            restart_strategy: RestartStrategy::OneForOne,
            outbox: Vec::new(),
        };
        assert(a.pending() =~= Seq::<(Seq<char>, AgentMessageView)>::empty());
        a
    }

    /// Add an agent to be supervised; an agent with the same id must not be managed already
    pub fn add_agent(&mut self, agent: Box<dyn Agent>) -> (r: Result<(), String>)
        ensures
            has_key(old(self).managed(), agent.agent_id()) ==> {
                &&& r matches Err(e) && e@ == "Agent "@ + agent.agent_id()
                    + " already managed by supervisor"@
                &&& *final(self) == *old(self)
            },
            !has_key(old(self).managed(), agent.agent_id()) ==> {
                &&& r is Ok
                &&& final(self).managed().len() == old(self).managed().len() + 1
                &&& final(self).managed().drop_last() === old(self).managed()
                &&& key_seq(final(self).managed()) == key_seq(old(self).managed()).push(
                    agent.agent_id(),
                )
                &&& entry_agent(lookup(final(self).managed(), agent.agent_id())) === Some(agent)
                &&& final(self).pending() == old(self).pending()
                &&& final(self).agent_id() == old(self).agent_id()
                &&& final(self).agent_state() == old(self).agent_state()
            },
    {
        let agent_id = agent.id().copy_key();
        if self.managed_agents.contains_key(&agent_id) {
            return Err(join3("Agent ", agent_id.0.as_str(), " already managed by supervisor"));
        }
        self.managed_agents.check_keys();
        let ghost before = self.managed_agents@;
        let ghost key = agent_id@;
        let entry = AgentEntry(agent);
        self.managed_agents.insert(agent_id, entry);
        proof {
            assert(self.managed_agents@.drop_last() =~= before);
            assert(key_seq(self.managed_agents@) =~= key_seq(before).push(key));
            lemma_lookup_insert(before, key, entry, key);
        }
        Ok(())
    }

    /// Remove an agent from supervision and return it
    pub fn remove_agent(&mut self, id: &AgentId) -> (r: Result<Option<Box<dyn Agent>>, String>)
        ensures
            r matches Ok(a) && a === entry_agent(lookup(old(self).managed(), id@)),
            final(self).managed() === remove_entry(old(self).managed(), id@),
            final(self).pending() == old(self).pending(),
            final(self).agent_id() == old(self).agent_id(),
            final(self).agent_state() == old(self).agent_state(),
    {
        match self.managed_agents.remove(id) {
            Some(e) => Ok(Some(e.0)),
            None => Ok(None),
        }
    }

    /// Get a managed agent
    pub fn get_agent(&self, id: &AgentId) -> (r: Option<&Box<dyn Agent>>)
        ensures
            match r {
                Some(a) => entry_agent(lookup(self.managed(), id@)) === Some(*a),
                None => lookup(self.managed(), id@).is_none(),
            },
    {
        match self.managed_agents.get(id) {
            Some(e) => Some(&e.0),
            None => None,
        }
    }

    /// Hand the forwarded task requests over for delivery, emptying the outbox
    pub fn take_outbox(&mut self) -> (r: Vec<(AgentId, AgentMessage)>)
        ensures
            r@.map_values(|e: (AgentId, AgentMessage)| (e.0@, e.1@)) == old(self).pending(),
            final(self).pending() == Seq::<(Seq<char>, AgentMessageView)>::empty(),
            final(self).managed() == old(self).managed(),
            final(self).agent_id() == old(self).agent_id(),
            final(self).agent_state() == old(self).agent_state(),
    {
        let mut r: Vec<(AgentId, AgentMessage)> = Vec::new();
        std::mem::swap(&mut r, &mut self.outbox);
        assert(self.pending() =~= Seq::<(Seq<char>, AgentMessageView)>::empty());
        r
    }

    /// Applies `stop` (or, with `terminate` set, `terminate`) to every managed agent, in
    /// order, whatever each returns.
    fn shut_down_managed(&mut self, terminate: bool)
        ensures
            key_seq(final(self).managed()) == key_seq(old(self).managed()),
            shut_down(old(self).managed(), final(self).managed(), terminate),
            final(self).pending() == old(self).pending(),
            final(self).agent_id() == old(self).agent_id(),
            final(self).agent_config() == old(self).agent_config(),
            final(self).agent_state() == old(self).agent_state(),
            final(self).agent_capabilities() == old(self).agent_capabilities(),
    {
        let n = self.managed_agents.len();
        let mut i: usize = 0;
        while i < n
            invariant
                n == self.managed_agents@.len(),
                i <= n,
                key_seq(self.managed_agents@) == key_seq(old(self).managed_agents@),
                self.managed_agents@.len() == n,
                forall|j: int|
                    0 <= j < i ==> (#[trigger] self.managed_agents@[j]).1.0.agent_state()
                        == state_after_shutdown(old(self).managed_agents@[j].1, terminate),
                forall|j: int|
                    i <= j < n ==> #[trigger] self.managed_agents@[j] === old(self).managed_agents@[j],
                self.outbox == old(self).outbox,
                self.id == old(self).id,
                self.config == old(self).config,
                self.state == old(self).state,
                self.capabilities == old(self).capabilities,
            decreases n - i,
        {
            let ghost before = self.managed_agents@;
            let (k, mut agent) = self.managed_agents.take_at(i);
            let ghost taken = agent;
            let ghost mid = self.managed_agents@;
            if terminate {
                let _ = agent.0.terminate();
            } else {
                let _ = agent.0.stop();
            }
            assert(agent.0.agent_state() == state_after_shutdown(taken, terminate));
            let ghost kv = k@;
            self.managed_agents.insert_at(i, k, agent);
            proof {
                assert(taken === old(self).managed_agents@[i as int].1);
                assert forall|j: int| 0 <= j < n && j != i implies #[trigger] self.managed_agents@[j]
                    === before[j] by {
                    if j < i {
                        assert(self.managed_agents@[j] === mid[j]);
                    } else {
                        assert(self.managed_agents@[j] === mid[j - 1]);
                    }
                }
                assert(kv == before[i as int].0);
                assert forall|j: int| 0 <= j < n implies #[trigger] key_seq(self.managed_agents@)[j]
                    == key_seq(before)[j] by {
                    if j < i {
                        assert(self.managed_agents@[j].0 == mid[j].0);
                        assert(mid[j].0 == before[j].0);
                    } else if j > i {
                        assert(self.managed_agents@[j].0 == mid[j - 1].0);
                        assert(mid[j - 1].0 == before[j].0);
                    }
                }
                assert(key_seq(self.managed_agents@) =~= key_seq(before));
            }
            i = i + 1;
        }
        assert forall|j: int| 0 <= j < n implies (#[trigger] self.managed_agents@[j]).0
            == old(self).managed_agents@[j].0 by {
            assert(key_seq(self.managed_agents@)[j] == key_seq(old(self).managed_agents@)[j]);
        }
    }
}

impl Agent for SupervisorAgent {
    closed spec fn agent_id(&self) -> Seq<char> {
        self.id@
    }

    closed spec fn agent_config(&self) -> AgentConfigView {
        self.config@
    }

    closed spec fn agent_state(&self) -> AgentStateView {
        self.state@
    }

    closed spec fn agent_capabilities(&self) -> CapabilitiesView {
        self.capabilities@
    }

    open spec fn start_result(&self) -> Result<(), Seq<char>> {
        Ok(())
    }

    open spec fn state_after_start(&self) -> AgentStateView {
        AgentStateView::Running
    }

    open spec fn stop_result(&self) -> Result<(), Seq<char>> {
        Ok(())
    }

    open spec fn state_after_stop(&self) -> AgentStateView {
        AgentStateView::Stopped
    }

    open spec fn state_after_terminate(&self) -> AgentStateView {
        AgentStateView::Stopped
    }

    fn id(&self) -> (r: &AgentId) {
        &self.id
    }

    fn config(&self) -> (r: &AgentConfig) {
        &self.config
    }

    fn state(&self) -> (r: AgentState) {
        self.state.duplicate()
    }

    fn initialize(&mut self) -> (r: Result<(), String>)
        ensures
            r is Ok,
            final(self).agent_state() == AgentStateView::Running,
            final(self).agent_id() == old(self).agent_id(),
            final(self).managed() == old(self).managed(),
            final(self).pending() == old(self).pending(),
    {
        self.state = AgentState::Running;
        Ok(())
    }

    fn start(&mut self) -> (r: Result<(), String>)
        ensures
            r is Ok,
            final(self).agent_state() == AgentStateView::Running,
            final(self).agent_id() == old(self).agent_id(),
            final(self).managed() == old(self).managed(),
            final(self).pending() == old(self).pending(),
    {
        self.state = AgentState::Running;
        Ok(())
    }

    fn pause(&mut self) -> (r: Result<(), String>)
        ensures
            r is Ok,
            final(self).agent_state() == AgentStateView::Paused,
            final(self).agent_id() == old(self).agent_id(),
            final(self).managed() == old(self).managed(),
            final(self).pending() == old(self).pending(),
    {
        self.state = AgentState::Paused;
        Ok(())
    }

    fn resume(&mut self) -> (r: Result<(), String>)
        ensures
            r is Ok,
            final(self).agent_state() == AgentStateView::Running,
            final(self).agent_id() == old(self).agent_id(),
            final(self).managed() == old(self).managed(),
            final(self).pending() == old(self).pending(),
    {
        self.state = AgentState::Running;
        Ok(())
    }

    /// Stops the supervisor, then asks every managed agent to stop, whatever each answers.
    fn stop(&mut self) -> (r: Result<(), String>)
        ensures
            r is Ok,
            final(self).agent_state() == AgentStateView::Stopped,
            final(self).agent_id() == old(self).agent_id(),
            key_seq(final(self).managed()) == key_seq(old(self).managed()),
            shut_down(old(self).managed(), final(self).managed(), false),
            final(self).pending() == old(self).pending(),
    {
        self.state = AgentState::Stopped;
        self.shut_down_managed(false);
        Ok(())
    }

    /// Stops the supervisor, then asks every managed agent to terminate, whatever each
    /// answers.
    fn terminate(&mut self) -> (r: Result<(), String>)
        ensures
            r is Ok,
            final(self).agent_state() == AgentStateView::Stopped,
            final(self).agent_id() == old(self).agent_id(),
            key_seq(final(self).managed()) == key_seq(old(self).managed()),
            shut_down(old(self).managed(), final(self).managed(), true),
            final(self).pending() == old(self).pending(),
    {
        self.state = AgentState::Stopped;
        self.shut_down_managed(true);
        Ok(())
    }

    /// Answers `list_agents` with the managed ids; forwards a task request to the first
    /// managed agent that declares its type, or answers that none can handle it; ignores
    /// anything else.
    fn handle_message(&mut self, message: AgentMessage) -> (r: Result<Option<AgentMessage>, String>)
        ensures
            final(self).managed() == old(self).managed(),
            final(self).agent_id() == old(self).agent_id(),
            final(self).agent_state() == old(self).agent_state(),
            match message@ {
                AgentMessageView::Command { command, .. } => {
                    &&& r matches Ok(reply) && option_message(reply) == if command
                        == "list_agents"@ {
                        Some(agent_list_response(old(self).managed()))
                    } else {
                        None
                    }
                    &&& final(self).pending() == old(self).pending()
                },
                AgentMessageView::TaskRequest { task_id, task_type, .. } => {
                    if some_capable(old(self).managed(), task_type) {
                        exists|i: int|
                            first_capable(old(self).managed(), task_type, i) && {
                                &&& r matches Ok(reply) && option_message(reply) == Some(
                                    forwarded_response(
                                        task_id,
                                        old(self).managed()[i].1.0.agent_id(),
                                    ),
                                )
                                &&& final(self).pending() == old(self).pending().push(
                                    (old(self).managed()[i].0, message@),
                                )
                            }
                    } else {
                        &&& r matches Ok(reply) && option_message(reply) == Some(
                            unroutable_response(task_id, task_type),
                        )
                        &&& final(self).pending() == old(self).pending()
                    }
                },
                _ => {
                    &&& r matches Ok(reply) && reply is None
                    &&& final(self).pending() == old(self).pending()
                },
            },
    {
        let ghost msg_view = message@;
        match message {
            AgentMessage::Command { command, args } => {
                proof {
                    reveal_strlit("list_agents");
                    reveal_strlit("supervisor_list");
                }
                if command == String::from_str("list_agents") {
                    let ids = self.managed_agents.keys();
                    let mut names: Vec<String> = Vec::new();
                    let n = ids.len();
                    let mut i: usize = 0;
                    while i < n
                        invariant
                            n == ids@.len(),
                            i <= n,
                            names@.len() == i,
                            forall|j: int| 0 <= j < i ==> #[trigger] names@[j]@ == ids@[j]@,
                        decreases n - i,
                    {
                        names.push(ids[i].0.clone());
                        i = i + 1;
                    }
                    assert(texts(names@) =~= ids@.map_values(|k: AgentId| k@));
                    let listed = json_string_array(names);
                    return Ok(
                        Some(
                            AgentMessage::TaskResponse {
                                task_id: String::from_str("supervisor_list"),
                                success: true,
                                result: Some(listed),
                                error: None,
                            },
                        ),
                    );
                }
                Ok(None)
            },
            AgentMessage::TaskRequest { task_id, task_type, payload, reply_to } => {
                let ghost request = AgentMessageView::TaskRequest {
                    task_id: task_id@,
                    task_type: task_type@,
                    payload,
                    reply_to: option_agent_id(reply_to),
                };
                assert(msg_view == request);
                let n = self.managed_agents.len();
                let mut i: usize = 0;
                while i < n
                    invariant
                        n == self.managed_agents@.len(),
                        i <= n,
                        *self == *old(self),
                        msg_view == request,
                        msg_view == message@,
                        request == (AgentMessageView::TaskRequest {
                            task_id: task_id@,
                            task_type: task_type@,
                            payload,
                            reply_to: option_agent_id(reply_to),
                        }),
                        forall|j: int| 0 <= j < i ==> !#[trigger] handles_task(
                            self.managed_agents@,
                            j,
                            task_type@,
                        ),
                    decreases n - i,
                {
                    let agent = &self.managed_agents.value_at(i).0;
                    if contains_text(&agent.capabilities().task_types, &task_type) {
                        let target = self.managed_agents.key_at(i).copy_key();
                        let to = agent.id().0.clone();
                        let forwarded = AgentMessage::TaskRequest {
                            task_id: task_id.clone(),
                            task_type: task_type.clone(),
                            payload: copy_json(&payload),
                            reply_to: match &reply_to {
                                Some(a) => Some(a.copy_key()),
                                None => None,
                            },
                        };
                        let ghost before = self.pending();
                        assert(target@ == old(self).managed()[i as int].0);
                        assert(forwarded@ == request);
                        self.outbox.push((target, forwarded));
                        assert(self.pending() =~= before.push(
                            (old(self).managed()[i as int].0, request),
                        ));
                        let mut pairs: Vec<(String, serde_json::Value)> = Vec::new();
                        pairs.push((String::from_str(" forwarded_to"), json_string(to)));
                        proof {
                            reveal_strlit(" forwarded_to");
                        }
                        assert(pairs@.map_values(|p: (String, serde_json::Value)| (p.0@, p.1))
                            =~= seq![(" forwarded_to"@, json_text(old(self).managed()[i as int].1.0.agent_id()))]);
                        let result = json_object(pairs);
                        assert(first_capable(old(self).managed(), task_type@, i as int));
                        let reply = AgentMessage::TaskResponse {
                            task_id,
                            success: true,
                            result: Some(result),
                            error: None,
                        };
                        assert(reply@ == forwarded_response(
                            task_id@,
                            old(self).managed()[i as int].1.0.agent_id(),
                        ));
                        assert(message@ == request);
                        assert(self.pending() == old(self).pending().push(
                            (old(self).managed()[i as int].0, message@),
                        ));
                        return Ok(Some(reply));
                    }
                    i = i + 1;
                }
                let error = join2("No agent capable of handling task type: ", task_type.as_str());
                Ok(
                    Some(
                        AgentMessage::TaskResponse {
                            task_id,
                            success: false,
                            result: None,
                            error: Some(error),
                        },
                    ),
                )
            },
            _ => Ok(None),
        }
    }

    fn capabilities(&self) -> (r: &AgentCapabilities) {
        &self.capabilities
    }
}

/// `Duration::from_secs`; the duration is named by `seconds` of the count.
pub uninterp spec fn seconds(secs: u64) -> Duration;

/// `Duration::from_secs`, which makes a duration of whole seconds; it is named by `seconds`.
#[verifier::external_body]
fn duration_from_secs(secs: u64) -> (d: Duration)
    ensures
        d == seconds(secs),
{
    Duration::from_secs(secs)
}

/// The state of an orchestrator.
pub struct OrchestratorView {
    pub agents: ManagedAgents,
    pub supervisors: ManagedAgents,
    pub next_id: u64,
}

/// What every orchestrator keeps: no two regular agents share an id, nor do two
/// supervisors.
pub open spec fn orchestrator_wf(o: OrchestratorView) -> bool {
    keys_unique(o.agents) && keys_unique(o.supervisors)
}

/// The agent registered under `id`: a regular agent first, else a supervisor.
pub open spec fn registered_agent(o: OrchestratorView, id: Seq<char>) -> Option<Box<dyn Agent>> {
    match lookup(o.agents, id) {
        Some(a) => Some(a.0),
        None => entry_agent(lookup(o.supervisors, id)),
    }
}

/// The id given to the `n`-th agent that the orchestrator names.
pub open spec fn agent_id_for(n: u64) -> Seq<char> {
    numbered("agent-"@, n as nat)
}

/// The orchestrator never gives the same id twice.
pub proof fn lemma_agent_ids_never_repeat(a: u64, b: u64)
    requires
        a != b,
    ensures
        agent_id_for(a) != agent_id_for(b),
{
    if agent_id_for(a) == agent_id_for(b) {
        lemma_numbered_injective("agent-"@, a as nat, b as nat);
    }
}

/// A regular agent that `register_agent` stored under `key` is what a lookup of the key
/// gives back, and lookups of other ids are unchanged.
pub proof fn lemma_registered_agent_found(
    before: OrchestratorView,
    after: OrchestratorView,
    key: Seq<char>,
    entry: AgentEntry,
    id: Seq<char>,
)
    requires
        keys_unique(before.agents),
        !has_key(before.agents, key),
        after.agents === before.agents.push((key, entry)),
        after.supervisors === before.supervisors,
    ensures
        registered_agent(after, id) === if id == key {
            Some(entry.0)
        } else {
            registered_agent(before, id)
        },
{
    lemma_lookup_insert(before.agents, key, entry, id);
}

/// A supervisor that `register_supervisor` stored under `key` is what a lookup of the key
/// gives back, unless a regular agent has that id: regular agents are looked up first.
pub proof fn lemma_registered_supervisor_found(
    before: OrchestratorView,
    after: OrchestratorView,
    key: Seq<char>,
    entry: AgentEntry,
)
    requires
        keys_unique(before.supervisors),
        !has_key(before.supervisors, key),
        after.supervisors === before.supervisors.push((key, entry)),
        after.agents === before.agents,
    ensures
        !has_key(before.agents, key) ==> registered_agent(after, key) === Some(entry.0),
        has_key(before.agents, key) ==> registered_agent(after, key) === registered_agent(
            before,
            key,
        ),
{
    lemma_lookup_insert(before.supervisors, key, entry, key);
}

/// Once an id is unregistered nothing is found under it unless both a regular agent and a
/// supervisor had it; then the supervisor is found next.
pub proof fn lemma_unregistered_agent_gone(before: OrchestratorView, id: Seq<char>)
    requires
        keys_unique(before.agents),
        keys_unique(before.supervisors),
    ensures
        has_key(before.agents, id) ==> registered_agent(
            OrchestratorView { agents: remove_entry(before.agents, id), ..before },
            id,
        ) === entry_agent(lookup(before.supervisors, id)),
        !has_key(before.agents, id) ==> registered_agent(
            OrchestratorView { supervisors: remove_entry(before.supervisors, id), ..before },
            id,
        ) === None,
{
    lemma_lookup_remove(before.agents, id, id);
    lemma_lookup_remove(before.supervisors, id, id);
}

/// What `start` (or, with `stop` set, `stop`) answers when called on `a`.
pub open spec fn run_result(a: AgentEntry, stop: bool) -> Result<(), Seq<char>> {
    if stop {
        a.0.stop_result()
    } else {
        a.0.start_result()
    }
}

/// The state that `start` (or, with `stop` set, `stop`) leaves `a` in.
pub open spec fn state_after_run(a: AgentEntry, stop: bool) -> AgentStateView {
    if stop {
        a.0.state_after_stop()
    } else {
        a.0.state_after_start()
    }
}

/// Every agent of `s` succeeds when started (or stopped).
pub open spec fn all_run_ok(s: ManagedAgents, stop: bool) -> bool {
    forall|j: int| 0 <= j < s.len() ==> (#[trigger] run_result(s[j].1, stop)) is Ok
}

/// The agent at `i` is the first of `s` that fails when started (or stopped).
pub open spec fn first_run_failure(s: ManagedAgents, stop: bool, i: int) -> bool {
    &&& 0 <= i < s.len()
    &&& run_result(s[i].1, stop) is Err
    &&& forall|j: int| 0 <= j < i ==> (#[trigger] run_result(s[j].1, stop)) is Ok
}

/// `after` is `before` with its first `upto` agents started (or stopped): each is in the
/// state that leaves it in, and the others are as they were.
pub open spec fn ran(before: ManagedAgents, after: ManagedAgents, stop: bool, upto: int) -> bool {
    &&& after.len() == before.len()
    &&& forall|j: int|
        0 <= j < before.len() ==> (#[trigger] after[j]).0 == before[j].0 && (j < upto ==> after[j].1.0.agent_state()
            == state_after_run(before[j].1, stop)) && (upto <= j ==> after[j] === before[j])
}

/// What running `start` (or `stop`) over the agents of `before` in order, up to the first
/// failure, does: `r` is that failure's answer, or success when none fails.
pub open spec fn run_outcome(
    before: ManagedAgents,
    after: ManagedAgents,
    stop: bool,
    r: Result<(), Seq<char>>,
) -> bool {
    &&& all_run_ok(before, stop) ==> r is Ok && ran(before, after, stop, before.len() as int)
    &&& forall|i: int|
        #[trigger] first_run_failure(before, stop, i) ==> r == run_result(before[i].1, stop) && ran(
            before,
            after,
            stop,
            i + 1,
        )
}

/// When not every agent succeeds, one of them is the first to fail.
proof fn lemma_first_run_failure(s: ManagedAgents, stop: bool)
    requires
        !all_run_ok(s, stop),
    ensures
        exists|i: int| first_run_failure(s, stop, i),
    decreases s.len(),
{
    let t = s.drop_last();
    if all_run_ok(t, stop) {
        let i = s.len() - 1;
        assert forall|j: int| 0 <= j < i implies (#[trigger] run_result(s[j].1, stop)) is Ok by {
            assert(s[j] === t[j]);
        }
        assert(run_result(s[i].1, stop) is Err) by {
            if run_result(s[i].1, stop) is Ok {
                assert forall|j: int| 0 <= j < s.len() implies (#[trigger] run_result(
                    s[j].1,
                    stop,
                )) is Ok by {
                    if j < i {
                        assert(s[j] === t[j]);
                    }
                }
            }
        }
        assert(first_run_failure(s, stop, i));
    } else {
        lemma_first_run_failure(t, stop);
        let i = choose|i: int| first_run_failure(t, stop, i);
        assert forall|j: int| 0 <= j < i implies (#[trigger] run_result(s[j].1, stop)) is Ok by {
            assert(s[j] === t[j]);
        }
        assert(s[i] === t[i]);
        assert(first_run_failure(s, stop, i));
    }
}

/// Manages the lifecycle of agents in the system
pub struct AgentOrchestrator {
    agents: Table<AgentId, AgentEntry>,
    supervisors: Table<AgentId, AgentEntry>,
    next_id: u64,
}

impl View for AgentOrchestrator {
    type V = OrchestratorView;

    closed spec fn view(&self) -> OrchestratorView {
        OrchestratorView {
            agents: self.agents@,
            supervisors: self.supervisors@,
            next_id: self.next_id,
        }
    }
}

impl AgentOrchestrator {
    /// Create a new agent orchestrator
    pub fn new() -> (o: Self)
        ensures
            o@.agents === Seq::<(Seq<char>, AgentEntry)>::empty(),
            o@.supervisors === Seq::<(Seq<char>, AgentEntry)>::empty(),
            o@.next_id == 0,
            orchestrator_wf(o@),
    {
        AgentOrchestrator { agents: Table::new(), supervisors: Table::new(), next_id: 0 }
    }

    /// Confirms what every orchestrator keeps: no two regular agents share an id, nor do two
    /// supervisors.
    pub fn check_invariants(&self)
        ensures
            orchestrator_wf(self@),
    {
        self.agents.check_keys();
        self.supervisors.check_keys();
    }

    /// How many agent ids the orchestrator has given out, which is the number in the next id.
    pub fn ids_given(&self) -> (n: u64)
        ensures
            n == self@.next_id,
    {
        self.next_id
    }

    /// Generate a unique agent ID ("agent-0", "agent-1", ...)
    pub fn generate_id(&mut self) -> (id: AgentId)
        requires
            old(self)@.next_id < u64::MAX,
        ensures
            id@ == agent_id_for(old(self)@.next_id),
            final(self)@ == (OrchestratorView { next_id: (old(self)@.next_id + 1) as u64, ..old(self)@ }),
            orchestrator_wf(final(self)@),
    {
        self.check_invariants();
        let id = numbered_id("agent-", self.next_id);
        self.next_id = self.next_id + 1;
        AgentId(id)
    }

    /// Register a regular agent; no regular agent may have its id already
    pub fn register_agent(&mut self, agent: Box<dyn Agent>) -> (r: Result<AgentId, String>)
        ensures
            has_key(old(self)@.agents, agent.agent_id()) ==> {
                &&& r matches Err(e) && e@ == "Agent with ID "@ + agent.agent_id()
                    + " already registered"@
                &&& final(self)@.agents === old(self)@.agents
            },
            !has_key(old(self)@.agents, agent.agent_id()) ==> {
                &&& r matches Ok(id) && id@ == agent.agent_id()
                &&& final(self)@.agents.len() == old(self)@.agents.len() + 1
                &&& final(self)@.agents.drop_last() === old(self)@.agents
                &&& key_seq(final(self)@.agents) == key_seq(old(self)@.agents).push(agent.agent_id())
                &&& registered_agent(final(self)@, agent.agent_id()) === Some(agent)
                &&& forall|q: Seq<char>| q != agent.agent_id() ==> registered_agent(final(self)@, q)
                    === registered_agent(old(self)@, q)
            },
            final(self)@.supervisors === old(self)@.supervisors,
            final(self)@.next_id == old(self)@.next_id,
            orchestrator_wf(final(self)@),
    {
        self.check_invariants();
        let agent_id = agent.id().copy_key();
        if self.agents.contains_key(&agent_id) {
            return Err(join3("Agent with ID ", agent_id.0.as_str(), " already registered"));
        }
        let ghost before = self@;
        let ghost key = agent_id@;
        let entry = AgentEntry(agent);
        self.agents.insert(agent_id.copy_key(), entry);
        self.check_invariants();
        proof {
            assert(self@.agents.drop_last() =~= before.agents);
            assert(key_seq(self@.agents) =~= key_seq(before.agents).push(key));
            assert forall|q: Seq<char>| true implies registered_agent(self@, q) === if q == key {
                Some(entry.0)
            } else {
                registered_agent(before, q)
            } by {
                lemma_registered_agent_found(before, self@, key, entry, q);
            }
        }
        Ok(agent_id)
    }

    /// Register a supervisor agent; no supervisor may have its id already
    pub fn register_supervisor(&mut self, agent: Box<dyn Agent>) -> (r: Result<AgentId, String>)
        ensures
            has_key(old(self)@.supervisors, agent.agent_id()) ==> {
                &&& r matches Err(e) && e@ == "Supervisor with ID "@ + agent.agent_id()
                    + " already registered"@
                &&& final(self)@.supervisors === old(self)@.supervisors
            },
            !has_key(old(self)@.supervisors, agent.agent_id()) ==> {
                &&& r matches Ok(id) && id@ == agent.agent_id()
                &&& final(self)@.supervisors.len() == old(self)@.supervisors.len() + 1
                &&& final(self)@.supervisors.drop_last() === old(self)@.supervisors
                &&& key_seq(final(self)@.supervisors) == key_seq(old(self)@.supervisors).push(
                    agent.agent_id(),
                )
                &&& entry_agent(lookup(final(self)@.supervisors, agent.agent_id())) === Some(agent)
                &&& forall|q: Seq<char>| q != agent.agent_id() ==> lookup(final(self)@.supervisors, q)
                    === lookup(old(self)@.supervisors, q)
            },
            final(self)@.agents === old(self)@.agents,
            final(self)@.next_id == old(self)@.next_id,
            orchestrator_wf(final(self)@),
    {
        self.check_invariants();
        let agent_id = agent.id().copy_key();
        if self.supervisors.contains_key(&agent_id) {
            return Err(join3("Supervisor with ID ", agent_id.0.as_str(), " already registered"));
        }
        let ghost before = self@;
        let ghost key = agent_id@;
        let entry = AgentEntry(agent);
        self.supervisors.insert(agent_id.copy_key(), entry);
        self.check_invariants();
        proof {
            assert(self@.supervisors.drop_last() =~= before.supervisors);
            assert(key_seq(self@.supervisors) =~= key_seq(before.supervisors).push(key));
            assert forall|q: Seq<char>| true implies lookup(self@.supervisors, q) === if q == key {
                Some(entry)
            } else {
                lookup(before.supervisors, q)
            } by {
                lemma_lookup_insert(before.supervisors, key, entry, q);
            }
        }
        Ok(agent_id)
    }

    /// Names, configures and registers a new simple agent that handles tasks of type
    /// "task", one at a time, restarting after one second.
    pub fn register_new_agent(
        &mut self,
        agent_type: String,
        name: String,
        max_restarts: usize,
    ) -> (r: Result<AgentId, String>)
        requires
            old(self)@.next_id < u64::MAX,
        ensures
            has_key(old(self)@.agents, agent_id_for(old(self)@.next_id)) ==> {
                &&& r matches Err(e) && e@ == "Agent with ID "@ + agent_id_for(old(self)@.next_id)
                    + " already registered"@
                &&& final(self)@.agents === old(self)@.agents
            },
            !has_key(old(self)@.agents, agent_id_for(old(self)@.next_id)) ==> (r matches Ok(id)
                && id@ == agent_id_for(old(self)@.next_id)),
            final(self)@.next_id == old(self)@.next_id + 1,
            final(self)@.supervisors === old(self)@.supervisors,
            !has_key(old(self)@.agents, agent_id_for(old(self)@.next_id)) ==> {
                &&& final(self)@.agents.len() == old(self)@.agents.len() + 1
                &&& final(self)@.agents.drop_last() === old(self)@.agents
                &&& final(self)@.agents.last().0 == agent_id_for(old(self)@.next_id)
                &&& final(self)@.agents.last().1.0.agent_config() == (AgentConfigView {
                    id: agent_id_for(old(self)@.next_id),
                    name: name@,
                    agent_type: agent_type@,
                    capabilities: CapabilitiesView {
                        task_types: seq!["task"@],
                        max_concurrent_tasks: 1,
                        supported_events: Seq::empty(),
                    },
                    max_restarts,
                    restart_delay: seconds(1),
                })
                &&& final(self)@.agents.last().1.0.agent_state() == AgentStateView::Initialized
            },
            orchestrator_wf(final(self)@),
    {
        let agent_id = self.generate_id();
        let mut task_types: Vec<String> = Vec::new();
        task_types.push(String::from_str("task"));
        let supported_events: Vec<String> = Vec::new();
        let config = AgentConfig {
            id: agent_id.copy_key(),
            name,
            agent_type,
            capabilities: AgentCapabilities { task_types, max_concurrent_tasks: 1, supported_events },
            max_restarts,
            restart_delay: duration_from_secs(1),
        };
        assert(config@.capabilities.task_types =~= seq!["task"@]);
        assert(config@.capabilities.supported_events =~= Seq::<Seq<char>>::empty());
        let agent = SimpleAgent::new(config);
        if self.agents.contains_key(&agent_id) {
            return Err(join3("Agent with ID ", agent_id.0.as_str(), " already registered"));
        }
        let entry = AgentEntry::of_simple(agent);
        self.agents.insert(agent_id.copy_key(), entry);
        assert(self@.agents.drop_last() =~= old(self)@.agents);
        self.check_invariants();
        Ok(agent_id)
    }

    /// Names, configures and registers a new supervisor that handles tasks of type
    /// "supervise", up to ten at a time, restarting after one second.
    pub fn register_new_supervisor(&mut self, name: String, max_restarts: usize) -> (r: Result<
        AgentId,
        String,
    >)
        requires
            old(self)@.next_id < u64::MAX,
        ensures
            has_key(old(self)@.supervisors, agent_id_for(old(self)@.next_id)) ==> {
                &&& r matches Err(e) && e@ == "Supervisor with ID "@ + agent_id_for(old(self)@.next_id)
                    + " already registered"@
                &&& final(self)@.supervisors === old(self)@.supervisors
            },
            !has_key(old(self)@.supervisors, agent_id_for(old(self)@.next_id)) ==> (r matches Ok(id)
                && id@ == agent_id_for(old(self)@.next_id)),
            final(self)@.next_id == old(self)@.next_id + 1,
            final(self)@.agents === old(self)@.agents,
            !has_key(old(self)@.supervisors, agent_id_for(old(self)@.next_id)) ==> {
                &&& final(self)@.supervisors.len() == old(self)@.supervisors.len() + 1
                &&& final(self)@.supervisors.drop_last() === old(self)@.supervisors
                &&& final(self)@.supervisors.last().0 == agent_id_for(old(self)@.next_id)
                &&& final(self)@.supervisors.last().1.0.agent_config() == (AgentConfigView {
                    id: agent_id_for(old(self)@.next_id),
                    name: name@,
                    agent_type: "supervisor"@,
                    capabilities: CapabilitiesView {
                        task_types: seq!["supervise"@],
                        max_concurrent_tasks: 10,
                        supported_events: Seq::empty(),
                    },
                    max_restarts,
                    restart_delay: seconds(1),
                })
                &&& final(self)@.supervisors.last().1.0.agent_state() == AgentStateView::Initialized
            },
            orchestrator_wf(final(self)@),
    {
        let agent_id = self.generate_id();
        let mut task_types: Vec<String> = Vec::new();
        task_types.push(String::from_str("supervise"));
        let supported_events: Vec<String> = Vec::new();
        let config = AgentConfig {
            id: agent_id.copy_key(),
            name,
            agent_type: String::from_str("supervisor"),
            capabilities: AgentCapabilities { task_types, max_concurrent_tasks: 10, supported_events },
            max_restarts,
            restart_delay: duration_from_secs(1),
        };
        assert(config@.capabilities.task_types =~= seq!["supervise"@]);
        assert(config@.capabilities.supported_events =~= Seq::<Seq<char>>::empty());
        let agent = SupervisorAgent::new(config);
        if self.supervisors.contains_key(&agent_id) {
            return Err(join3("Supervisor with ID ", agent_id.0.as_str(), " already registered"));
        }
        let entry = AgentEntry::of_supervisor(agent);
        self.supervisors.insert(agent_id.copy_key(), entry);
        assert(self@.supervisors.drop_last() =~= old(self)@.supervisors);
        self.check_invariants();
        Ok(agent_id)
    }

    /// Get an agent by ID: the regular agent with that id, else the supervisor
    pub fn get_agent(&self, id: &AgentId) -> (r: Option<&Box<dyn Agent>>)
        ensures
            match r {
                Some(a) => registered_agent(self@, id@) === Some(*a),
                None => registered_agent(self@, id@).is_none(),
            },
    {
        self.agents.check_keys();
        self.supervisors.check_keys();
        match self.agents.find(id) {
            Some(i) => {
                proof {
                    lemma_lookup_at(self.agents@, i as int);
                }
                Some(&self.agents.value_at(i).0)
            },
            None => match self.supervisors.find(id) {
                Some(i) => {
                    proof {
                        lemma_lookup_at(self.supervisors@, i as int);
                    }
                    Some(&self.supervisors.value_at(i).0)
                },
                None => None,
            },
        }
    }

    /// Unregister an agent: the regular agent with that id, else the supervisor
    pub fn unregister_agent(&mut self, id: &AgentId) -> (r: Result<Option<Box<dyn Agent>>, String>)
        ensures
            r matches Ok(a) && a === registered_agent(old(self)@, id@),
            has_key(old(self)@.agents, id@) ==> {
                &&& final(self)@.agents === remove_entry(old(self)@.agents, id@)
                &&& !has_key(final(self)@.agents, id@)
                &&& final(self)@.agents.len() == old(self)@.agents.len() - 1
                &&& final(self)@.supervisors === old(self)@.supervisors
            },
            !has_key(old(self)@.agents, id@) ==> {
                &&& final(self)@.agents === old(self)@.agents
                &&& final(self)@.supervisors === remove_entry(old(self)@.supervisors, id@)
                &&& !has_key(final(self)@.supervisors, id@)
                &&& has_key(old(self)@.supervisors, id@) ==> final(self)@.supervisors.len()
                    == old(self)@.supervisors.len() - 1
            },
            final(self)@.next_id == old(self)@.next_id,
            orchestrator_wf(final(self)@),
    {
        self.check_invariants();
        proof {
            lemma_lookup_remove(self@.agents, id@, id@);
            lemma_lookup_remove(self@.supervisors, id@, id@);
        }
        match self.agents.remove(id) {
            Some(a) => {
                self.check_invariants();
                Ok(Some(a.0))
            },
            None => {
                let r = self.supervisors.remove(id);
                self.check_invariants();
                match r {
                    Some(a) => Ok(Some(a.0)),
                    None => Ok(None),
                }
            },
        }
    }

    /// List all agent IDs: the regular agents', then the supervisors'
    pub fn list_agent_ids(&self) -> (r: Vec<AgentId>)
        ensures
            r@.map_values(|a: AgentId| a@) == key_seq(self@.agents) + key_seq(self@.supervisors),
    {
        let mut ids = self.agents.keys();
        let mut more = self.supervisors.keys();
        let ghost a = ids@;
        let ghost b = more@;
        ids.append(&mut more);
        assert(ids@.map_values(|x: AgentId| x@) =~= a.map_values(|x: AgentId| x@) + b.map_values(
            |x: AgentId| x@,
        ));
        ids
    }

    /// Send a message to an agent; the agent must be registered
    pub fn send_message(&self, agent_id: &AgentId, message: AgentMessage) -> (r: Result<(), String>)
        ensures
            r is Ok <==> registered_agent(self@, agent_id@).is_some(),
            r matches Err(e) ==> e@ == "Agent "@ + agent_id@ + " not found"@,
    {
        match self.get_agent(agent_id) {
            Some(_) => Ok(()),
            None => Err(join3("Agent ", agent_id.0.as_str(), " not found")),
        }
    }

    /// Broadcast a message to all agents
    pub fn broadcast_message(&self, message: AgentMessage) -> (r: Result<(), String>)
        ensures
            r is Ok,
    {
        let ids = self.list_agent_ids();
        let n = ids.len();
        let mut i: usize = 0;
        while i < n
            invariant
                n == ids@.len(),
                i <= n,
            decreases n - i,
        {
            let _ = self.send_message(&ids[i], message.duplicate());
            i = i + 1;
        }
        Ok(())
    }

    /// Calls `start` (or, with `stop` set, `stop`) on every agent of `table`, in order, and
    /// stops at the first error, which it returns.
    fn run_all(table: &mut Table<AgentId, AgentEntry>, stop: bool) -> (r: Result<(), String>)
        ensures
            key_seq(final(table)@) == key_seq(old(table)@),
            run_outcome(old(table)@, final(table)@, stop, unit_result_text(r)),
    {
        let n = table.len();
        let mut i: usize = 0;
        while i < n
            invariant
                n == table@.len(),
                i <= n,
                key_seq(table@) == key_seq(old(table)@),
                ran(old(table)@, table@, stop, i as int),
                forall|j: int| 0 <= j < i ==> (#[trigger] run_result(old(table)@[j].1, stop)) is Ok,
            decreases n - i,
        {
            let ghost before = table@;
            let (k, mut agent) = table.take_at(i);
            let ghost taken = agent;
            let result = if stop {
                agent.0.stop()
            } else {
                agent.0.start()
            };
            assert(unit_result_text(result) == run_result(taken, stop));
            assert(agent.0.agent_state() == state_after_run(taken, stop));
            let ghost kv = k@;
            table.insert_at(i, k, agent);
            proof {
                assert(key_seq(table@) =~= key_seq(before)) by {
                    assert forall|j: int| 0 <= j < n implies #[trigger] key_seq(table@)[j]
                        == key_seq(before)[j] by {
                        if j > i {
                            assert(table@[j].0 == before[j].0);
                        }
                    }
                }
                assert(before[i as int].1 === old(table)@[i as int].1);
                assert(ran(old(table)@, table@, stop, i + 1)) by {
                    assert forall|j: int| 0 <= j < n implies (#[trigger] table@[j]).0 == old(table)@[j].0
                        && (j < i + 1 ==> table@[j].1.0.agent_state() == state_after_run(
                        old(table)@[j].1,
                        stop,
                    )) && (i + 1 <= j ==> table@[j] === old(table)@[j]) by {
                        if j != i {
                            assert(table@[j] === before[j]);
                        }
                    }
                }
            }
            match result {
                Ok(()) => {},
                Err(e) => {
                    proof {
                        assert(first_run_failure(old(table)@, stop, i as int));
                        assert forall|x: int| #[trigger] first_run_failure(old(table)@, stop, x) implies x
                            == i by {
                            if x < i {
                                assert(run_result(old(table)@[x].1, stop) is Ok);
                            } else if x > i {
                                assert(run_result(old(table)@[i as int].1, stop) is Ok);
                            }
                        }
                    }
                    return Err(e);
                },
            }
            i = i + 1;
        }
        proof {
            assert forall|x: int| !#[trigger] first_run_failure(old(table)@, stop, x) by {
                if 0 <= x < n {
                    assert(run_result(old(table)@[x].1, stop) is Ok);
                }
            }
        }
        Ok(())
    }

    /// Start all registered agents: the supervisors first, then the regular agents; the
    /// first error ends it
    pub fn start_all_agents(&mut self) -> (r: Result<(), String>)
        ensures
            key_seq(final(self)@.agents) == key_seq(old(self)@.agents),
            key_seq(final(self)@.supervisors) == key_seq(old(self)@.supervisors),
            final(self)@.next_id == old(self)@.next_id,
            all_run_ok(old(self)@.supervisors, false) ==> {
                &&& ran(
                    old(self)@.supervisors,
                    final(self)@.supervisors,
                    false,
                    old(self)@.supervisors.len() as int,
                )
                &&& run_outcome(old(self)@.agents, final(self)@.agents, false, unit_result_text(r))
            },
            !all_run_ok(old(self)@.supervisors, false) ==> {
                &&& run_outcome(
                    old(self)@.supervisors,
                    final(self)@.supervisors,
                    false,
                    unit_result_text(r),
                )
                &&& final(self)@.agents === old(self)@.agents
            },
            orchestrator_wf(final(self)@),
    {
        self.check_invariants();
        match Self::run_all(&mut self.supervisors, false) {
            Ok(()) => {},
            Err(e) => {
                self.check_invariants();
                return Err(e);
            },
        }
        proof {
            if !all_run_ok(old(self)@.supervisors, false) {
                lemma_first_run_failure(old(self)@.supervisors, false);
            }
        }
        let r = Self::run_all(&mut self.agents, false);
        self.check_invariants();
        r
    }

    /// Stop all registered agents: the regular agents first, then the supervisors; the
    /// first error ends it
    pub fn stop_all_agents(&mut self) -> (r: Result<(), String>)
        ensures
            key_seq(final(self)@.agents) == key_seq(old(self)@.agents),
            key_seq(final(self)@.supervisors) == key_seq(old(self)@.supervisors),
            final(self)@.next_id == old(self)@.next_id,
            all_run_ok(old(self)@.agents, true) ==> {
                &&& ran(old(self)@.agents, final(self)@.agents, true, old(self)@.agents.len() as int)
                &&& run_outcome(
                    old(self)@.supervisors,
                    final(self)@.supervisors,
                    true,
                    unit_result_text(r),
                )
            },
            !all_run_ok(old(self)@.agents, true) ==> {
                &&& run_outcome(old(self)@.agents, final(self)@.agents, true, unit_result_text(r))
                &&& final(self)@.supervisors === old(self)@.supervisors
            },
            orchestrator_wf(final(self)@),
    {
        self.check_invariants();
        match Self::run_all(&mut self.agents, true) {
            Ok(()) => {},
            Err(e) => {
                self.check_invariants();
                return Err(e);
            },
        }
        proof {
            if !all_run_ok(old(self)@.agents, true) {
                lemma_first_run_failure(old(self)@.agents, true);
            }
        }
        let r = Self::run_all(&mut self.supervisors, true);
        self.check_invariants();
        r
    }
}



} // verus!
