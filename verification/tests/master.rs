use rosrust::api::master::{system_state, topic_data, topics, Call, Master, Topic, TopicData};
use rosrust::rosxmlrpc::{response, ResponseError};

fn call(method: &str, args: &[&str]) -> Call {
    Call { method: method.to_string(), args: args.iter().map(|a| a.to_string()).collect() }
}

fn master() -> Master {
    Master::new("http://localhost:11311/", "/ns/node", "http://host:4242/")
}

#[test]
fn registrations_carry_caller_and_endpoint() {
    let m = master();
    assert_eq!(m.uri(), "http://localhost:11311/");
    assert_eq!(m.client_id(), "/ns/node");
    assert_eq!(
        m.register_publisher("/chatter", "std_msgs/String"),
        call("registerPublisher", &["/ns/node", "/chatter", "std_msgs/String", "http://host:4242/"])
    );
    assert_eq!(
        m.unregister_publisher("/chatter"),
        call("unregisterPublisher", &["/ns/node", "/chatter", "http://host:4242/"])
    );
    assert_eq!(
        m.register_subscriber("/chatter", "std_msgs/String"),
        call("registerSubscriber", &["/ns/node", "/chatter", "std_msgs/String", "http://host:4242/"])
    );
    assert_eq!(
        m.unregister_subscriber("/chatter"),
        call("unregisterSubscriber", &["/ns/node", "/chatter", "http://host:4242/"])
    );
    assert_eq!(
        m.register_service("/add", "rosrpc://host:5000"),
        call("registerService", &["/ns/node", "/add", "rosrpc://host:5000", "http://host:4242/"])
    );
    assert_eq!(
        m.unregister_service("/add", "rosrpc://host:5000"),
        call("unregisterService", &["/ns/node", "/add", "rosrpc://host:5000"])
    );
    assert_eq!(m.lookup_service("/add"), call("lookupService", &["/ns/node", "/add"]));
}

#[test]
fn parameter_calls_carry_caller_and_key() {
    let m = master();
    assert_eq!(m.get_param("/p"), call("getParam", &["/ns/node", "/p"]));
    assert_eq!(m.set_param("/p"), call("setParam", &["/ns/node", "/p"]));
    assert_eq!(m.delete_param("/p"), call("deleteParam", &["/ns/node", "/p"]));
    assert_eq!(m.has_param("/p"), call("hasParam", &["/ns/node", "/p"]));
    assert_eq!(m.search_param("/p"), call("searchParam", &["/ns/node", "/p"]));
    assert_eq!(m.get_param_names(), call("getParamNames", &["/ns/node"]));
    assert_eq!(m.get_system_state(), call("getSystemState", &["/ns/node"]));
    assert_eq!(m.get_topic_types(), call("getTopicTypes", &["/ns/node"]));
}

#[test]
fn a_status_of_one_or_more_is_success() {
    assert_eq!(response(1, "ok".to_string(), 7), Ok(7));
    assert_eq!(response(2, "ok".to_string(), "v"), Ok("v"));
    assert_eq!(response(i32::MAX, String::new(), ()), Ok(()));
}

#[test]
fn a_status_below_one_is_an_error_with_the_message() {
    assert_eq!(response(-1, "no provider".to_string(), 0), Err(ResponseError::Client("no provider".into())));
    assert_eq!(response(0, "failed".to_string(), 0), Err(ResponseError::Server("failed".into())));
    assert_eq!(response(-2, "odd".to_string(), 0), Err(ResponseError::Server("odd".into())));
    assert_eq!(response(i32::MIN, "odd".to_string(), 0), Err(ResponseError::Server("odd".into())));
    assert_eq!(ResponseError::Client("a".into()).reason(), "a");
    assert_eq!(ResponseError::Server("b".into()).reason(), "b");
    assert_eq!(ResponseError::Transport("c".into()).reason(), "c");
}

#[test]
fn snapshots_keep_their_entries_in_order() {
    let raw = vec![
        ("/chatter".to_string(), vec!["/talker".to_string(), "/other".to_string()]),
        ("/scan".to_string(), vec![]),
        ("/tf".to_string(), vec!["/a".to_string()]),
    ];
    assert_eq!(
        topic_data(raw.clone()),
        vec![
            TopicData { name: "/chatter".into(), connections: vec!["/talker".into(), "/other".into()] },
            TopicData { name: "/scan".into(), connections: vec![] },
            TopicData { name: "/tf".into(), connections: vec!["/a".into()] },
        ]
    );
    assert_eq!(topic_data(Vec::new()), Vec::new());
    let state = system_state((raw.clone(), vec![raw[1].clone()], vec![]));
    assert_eq!(state.publishers.len(), 3);
    assert_eq!(state.publishers[0].name, "/chatter");
    assert_eq!(state.subscribers, vec![TopicData { name: "/scan".into(), connections: vec![] }]);
    assert!(state.services.is_empty());
    assert_eq!(
        topics(vec![("/a".to_string(), "x/A".to_string()), ("/b".to_string(), "x/B".to_string())]),
        vec![
            Topic { name: "/a".into(), datatype: "x/A".into() },
            Topic { name: "/b".into(), datatype: "x/B".into() },
        ]
    );
}
