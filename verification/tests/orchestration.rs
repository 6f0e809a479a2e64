use agent_os::orchestration::{
    Agent, AgentCapabilities, AgentConfig, AgentId, AgentMessage, AgentOrchestrator, AgentState,
    SimpleAgent, SupervisorAgent,
};
use std::time::Duration;

fn config(id: &str, task_types: &[&str]) -> AgentConfig {
    AgentConfig {
        id: AgentId(id.to_string()),
        name: format!("{} name", id),
        agent_type: "simple".to_string(),
        capabilities: AgentCapabilities {
            task_types: task_types.iter().map(|t| t.to_string()).collect(),
            max_concurrent_tasks: 1,
            supported_events: vec![],
        },
        max_restarts: 3,
        restart_delay: Duration::from_secs(1),
    }
}

#[test]
fn test_agent_orchestrator_creation() {
    let orchestrator = AgentOrchestrator::new();
    assert_eq!(orchestrator.list_agent_ids().len(), 0);
}

#[test]
fn test_simple_agent_creation_and_lifecycle() {
    let config = AgentConfig {
        id: AgentId("test-agent".to_string()),
        name: "Test Agent".to_string(),
        agent_type: "simple".to_string(),
        capabilities: AgentCapabilities {
            task_types: vec!["test".to_string()],
            max_concurrent_tasks: 1,
            supported_events: vec![],
        },
        max_restarts: 3,
        restart_delay: Duration::from_secs(1),
    };

    let mut agent = SimpleAgent::new(config);
    assert_eq!(agent.state(), AgentState::Initialized);

    agent.initialize().unwrap();
    assert_eq!(agent.state(), AgentState::Running);

    agent.pause().unwrap();
    assert_eq!(agent.state(), AgentState::Paused);

    agent.resume().unwrap();
    assert_eq!(agent.state(), AgentState::Running);

    agent.stop().unwrap();
    assert_eq!(agent.state(), AgentState::Stopped);
}

#[test]
fn simple_agent_answers_ping_and_tasks() {
    let mut agent = SimpleAgent::new(config("worker", &["compute"]));
    match agent.handle_message(AgentMessage::Ping).unwrap() {
        Some(AgentMessage::Pong) => {}
        _ => panic!("expected a pong"),
    }
    let request = AgentMessage::TaskRequest {
        task_id: "t1".to_string(),
        task_type: "compute".to_string(),
        payload: serde_json::Value::from(5),
        reply_to: None,
    };
    match agent.handle_message(request).unwrap() {
        Some(AgentMessage::TaskResponse { task_id, success, result, error }) => {
            assert_eq!(task_id, "t1");
            assert!(success);
            assert!(error.is_none());
            let result = result.unwrap();
            assert_eq!(result["processed_by"], serde_json::Value::from("worker"));
            assert_eq!(result["task_type"], serde_json::Value::from("compute"));
            assert_eq!(result["payload"], serde_json::Value::from(5));
        }
        _ => panic!("expected a task response"),
    }
    let event = AgentMessage::Event { event_type: "e".to_string(), payload: serde_json::Value::Null };
    assert!(agent.handle_message(event).unwrap().is_none());
}

#[test]
fn duplicate_registration_is_refused() {
    let mut o = AgentOrchestrator::new();
    let id = o.register_agent(Box::new(SimpleAgent::new(config("a", &["x"])))).unwrap();
    assert_eq!(id.0, "a");
    let err = o.register_agent(Box::new(SimpleAgent::new(config("a", &["y"])))).unwrap_err();
    assert_eq!(err, "Agent with ID a already registered");
    // the same id may still be used once among the supervisors
    let sid = o.register_supervisor(Box::new(SupervisorAgent::new(config("a", &["supervise"])))).unwrap();
    assert_eq!(sid.0, "a");
    let err = o.register_supervisor(Box::new(SupervisorAgent::new(config("a", &[])))).unwrap_err();
    assert_eq!(err, "Supervisor with ID a already registered");
    let ids: Vec<String> = o.list_agent_ids().into_iter().map(|i| i.0).collect();
    assert_eq!(ids, vec!["a".to_string(), "a".to_string()]);
    // the regular agent is found first; once it is gone, the supervisor is
    let a = AgentId("a".to_string());
    assert_eq!(o.get_agent(&a).unwrap().capabilities().task_types, vec!["x".to_string()]);
    assert!(o.unregister_agent(&a).unwrap().is_some());
    assert_eq!(o.get_agent(&a).unwrap().capabilities().task_types, vec!["supervise".to_string()]);
    assert!(o.unregister_agent(&a).unwrap().is_some());
    assert!(o.get_agent(&a).is_none());
}

#[test]
fn new_agents_are_numbered() {
    let mut o = AgentOrchestrator::new();
    let a = o.register_new_agent("simple".to_string(), "First".to_string(), 3).unwrap();
    let s = o.register_new_supervisor("Boss".to_string(), 5).unwrap();
    let b = o.register_new_agent("simple".to_string(), "Second".to_string(), 3).unwrap();
    assert_eq!(a.0, "agent-0");
    assert_eq!(s.0, "agent-1");
    assert_eq!(b.0, "agent-2");
    let agent = o.get_agent(&a).unwrap();
    assert_eq!(agent.config().name, "First");
    assert_eq!(agent.capabilities().task_types, vec!["task".to_string()]);
    assert_eq!(agent.state(), AgentState::Initialized);
    let boss = o.get_agent(&s).unwrap();
    assert_eq!(boss.config().agent_type, "supervisor");
    assert_eq!(boss.capabilities().max_concurrent_tasks, 10);
    assert_eq!(boss.config().restart_delay, Duration::from_secs(1));
    let ids: Vec<String> = o.list_agent_ids().into_iter().map(|i| i.0).collect();
    assert_eq!(ids, vec!["agent-0".to_string(), "agent-2".to_string(), "agent-1".to_string()]);
}

#[test]
fn unregister_and_messages() {
    let mut o = AgentOrchestrator::new();
    o.register_agent(Box::new(SimpleAgent::new(config("a", &["x"])))).unwrap();
    o.register_supervisor(Box::new(SupervisorAgent::new(config("s", &["supervise"])))).unwrap();
    assert!(o.send_message(&AgentId("a".to_string()), AgentMessage::Ping).is_ok());
    assert!(o.send_message(&AgentId("s".to_string()), AgentMessage::Ping).is_ok());
    assert_eq!(
        o.send_message(&AgentId("zz".to_string()), AgentMessage::Ping).unwrap_err(),
        "Agent zz not found"
    );
    assert!(o.broadcast_message(AgentMessage::Ping).is_ok());
    assert!(o.unregister_agent(&AgentId("s".to_string())).unwrap().is_some());
    assert!(o.unregister_agent(&AgentId("s".to_string())).unwrap().is_none());
    assert!(o.get_agent(&AgentId("s".to_string())).is_none());
    assert_eq!(o.list_agent_ids().len(), 1);
}

#[test]
fn start_and_stop_all() {
    let mut o = AgentOrchestrator::new();
    let a = o.register_new_agent("simple".to_string(), "A".to_string(), 1).unwrap();
    let s = o.register_new_supervisor("S".to_string(), 1).unwrap();
    o.start_all_agents().unwrap();
    assert_eq!(o.get_agent(&a).unwrap().state(), AgentState::Running);
    assert_eq!(o.get_agent(&s).unwrap().state(), AgentState::Running);
    o.stop_all_agents().unwrap();
    assert_eq!(o.get_agent(&a).unwrap().state(), AgentState::Stopped);
    assert_eq!(o.get_agent(&s).unwrap().state(), AgentState::Stopped);
    assert_eq!(o.list_agent_ids().len(), 2);
}

#[test]
fn supervisor_forwards_to_the_first_capable_agent() {
    let mut boss = SupervisorAgent::new(config("boss", &["supervise"]));
    boss.add_agent(Box::new(SimpleAgent::new(config("w1", &["draw"])))).unwrap();
    boss.add_agent(Box::new(SimpleAgent::new(config("w2", &["compute", "draw"])))).unwrap();
    assert_eq!(
        boss.add_agent(Box::new(SimpleAgent::new(config("w1", &[])))).unwrap_err(),
        "Agent w1 already managed by supervisor"
    );
    let request = AgentMessage::TaskRequest {
        task_id: "t9".to_string(),
        task_type: "compute".to_string(),
        payload: serde_json::Value::Null,
        reply_to: Some(AgentId("caller".to_string())),
    };
    match boss.handle_message(request).unwrap() {
        Some(AgentMessage::TaskResponse { task_id, success, result, error }) => {
            assert_eq!(task_id, "t9");
            assert!(success);
            assert!(error.is_none());
            assert_eq!(result.unwrap()[" forwarded_to"], serde_json::Value::from("w2"));
        }
        _ => panic!("expected a task response"),
    }
    let outbox = boss.take_outbox();
    assert_eq!(outbox.len(), 1);
    assert_eq!(outbox[0].0 .0, "w2");
    match &outbox[0].1 {
        AgentMessage::TaskRequest { task_id, task_type, reply_to, .. } => {
            assert_eq!(task_id, "t9");
            assert_eq!(task_type, "compute");
            assert_eq!(reply_to.as_ref().unwrap().0, "caller");
        }
        _ => panic!("expected the forwarded request"),
    }
    assert!(boss.take_outbox().is_empty());
}

#[test]
fn supervisor_reports_unhandled_task_types() {
    let mut boss = SupervisorAgent::new(config("boss", &["supervise"]));
    boss.add_agent(Box::new(SimpleAgent::new(config("w1", &["draw"])))).unwrap();
    let request = AgentMessage::TaskRequest {
        task_id: "t2".to_string(),
        task_type: "sing".to_string(),
        payload: serde_json::Value::Null,
        reply_to: None,
    };
    match boss.handle_message(request).unwrap() {
        Some(AgentMessage::TaskResponse { task_id, success, result, error }) => {
            assert_eq!(task_id, "t2");
            assert!(!success);
            assert!(result.is_none());
            assert_eq!(error.unwrap(), "No agent capable of handling task type: sing");
        }
        _ => panic!("expected a task response"),
    }
    assert!(boss.take_outbox().is_empty());
}

#[test]
fn supervisor_lists_its_agents() {
    let mut boss = SupervisorAgent::new(config("boss", &["supervise"]));
    boss.add_agent(Box::new(SimpleAgent::new(config("w1", &[])))).unwrap();
    boss.add_agent(Box::new(SimpleAgent::new(config("w2", &[])))).unwrap();
    let list = AgentMessage::Command { command: "list_agents".to_string(), args: serde_json::Value::Null };
    match boss.handle_message(list).unwrap() {
        Some(AgentMessage::TaskResponse { task_id, success, result, error }) => {
            assert_eq!(task_id, "supervisor_list");
            assert!(success);
            assert!(error.is_none());
            assert_eq!(result.unwrap(), serde_json::Value::from(vec!["w1".to_string(), "w2".to_string()]));
        }
        _ => panic!("expected the agent list"),
    }
    let other = AgentMessage::Command { command: "other".to_string(), args: serde_json::Value::Null };
    assert!(boss.handle_message(other).unwrap().is_none());
    assert!(boss.remove_agent(&AgentId("w1".to_string())).unwrap().is_some());
    assert!(boss.get_agent(&AgentId("w1".to_string())).is_none());
    assert!(boss.get_agent(&AgentId("w2".to_string())).is_some());
}
