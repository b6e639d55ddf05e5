use rosrust::api::error::Error;
use rosrust::api::master::Call;
use rosrust::api::naming::ErrorKind;
use rosrust::api::ros::{ClientAddress, Poll, Ros, POLL_MILLIS};
use rosrust::api::slave::{Action, Inbound, Outbound, Update};
use rosrust::rosxmlrpc::{response, Response, ResponseError};
use rosrust::tcpros::descriptor::MessageType;
use rosrust::tcpros::frame::{decode_frame, encode_frame};
use rosrust::tcpros::handshake::{
    check_answer, client_request, server_answer, subscriber_request, Fault,
};
use rosrust::tcpros::message;
use rosrust::tcpros::message::{Atom, AtomKind};
use rosrust::tcpros::service::{decode_response, encode_failure, encode_result};

fn text() -> MessageType {
    MessageType::new("std_msgs/String", "992ce8a1687cec8c8bd883ec73ca41d1", "string data\n")
}

fn strings(list: &[&str]) -> Vec<String> {
    list.iter().map(|s| s.to_string()).collect()
}

fn call(method: &str, args: &[&str]) -> Call {
    Call { method: method.to_string(), args: strings(args) }
}

fn node() -> Ros {
    Ros::new_raw("http://localhost:11311/", "myhost", "/ns", "node", 4242).unwrap()
}

fn naming_error(r: Result<Ros, Error>) -> (ErrorKind, String) {
    match r {
        Err(Error::Naming(e)) => (e.kind, e.name),
        Err(other) => panic!("unexpected error: {:?}", other),
        Ok(_) => panic!("unexpected success"),
    }
}

#[test]
fn a_node_is_named_below_its_namespace() {
    let ros = node();
    assert_eq!(ros.name(), "/ns/node");
    assert_eq!(ros.hostname(), "myhost");
    assert_eq!(ros.uri(), "http://myhost:4242/");
    assert_eq!(ros.master().uri(), "http://localhost:11311/");
    assert_eq!(ros.slave().name(), "/ns/node");
    assert_eq!(ros.slave().get_master_uri(), "http://localhost:11311/");
    assert_eq!(ros.resolve("a").unwrap(), "/ns/a");
    assert_eq!(ros.resolve("~a").unwrap(), "/ns/node/a");
}

#[test]
fn trailing_slashes_of_the_namespace_are_dropped() {
    assert_eq!(Ros::new_raw("m", "h", "", "talker", 1).unwrap().name(), "/talker");
    assert_eq!(Ros::new_raw("m", "h", "/", "talker", 1).unwrap().name(), "/talker");
    assert_eq!(Ros::new_raw("m", "h", "///", "talker", 1).unwrap().name(), "/talker");
    assert_eq!(Ros::new_raw("m", "h", "/a/b/", "talker", 1).unwrap().name(), "/a/b/talker");
    assert_eq!(Ros::new_raw("m", "h", "/a/b//", "talker", 1).unwrap().name(), "/a/b/talker");
}

#[test]
fn a_node_name_with_a_slash_is_refused() {
    assert_eq!(
        naming_error(Ros::new_raw("m", "h", "/ns", "a/b", 1)),
        (ErrorKind::IllegalCharacter, "a/b".to_string())
    );
    assert_eq!(
        naming_error(Ros::new_raw("m", "h", "/ns", "/node", 1)),
        (ErrorKind::IllegalCharacter, "/node".to_string())
    );
    assert_eq!(
        naming_error(Ros::new_raw("m", "h", "/ns", "", 1)),
        (ErrorKind::EmptyName, "/ns/".to_string())
    );
    assert_eq!(
        naming_error(Ros::new_raw("m", "h", "ns", "node", 1)),
        (ErrorKind::LeadingSlashMissing, "ns/node".to_string())
    );
    assert_eq!(
        naming_error(Ros::new_raw("m", "h", "/n s", "node", 1)),
        (ErrorKind::IllegalCharacter, "/n s/node".to_string())
    );
    assert_eq!(
        naming_error(Ros::new_raw("m", "h", "/ns", "9node", 1)),
        (ErrorKind::IllegalFirstCharacter, "/ns/9node".to_string())
    );
}

#[test]
fn remapped_topics_are_registered_under_their_new_name() {
    let mappings = vec![("/foo".to_string(), "/bar".to_string())];
    let mut ros = Ros::new("node", "", "http://localhost:11311/", "myhost", 4242, &mappings).unwrap();
    let req = ros.publish("foo", &text(), 5000).unwrap();
    assert_eq!(req.name, "/bar");
    assert_eq!(
        req.call,
        call("registerPublisher", &["/node", "/bar", "std_msgs/String", "http://myhost:4242/"])
    );
    assert_eq!(ros.slave().publication_port("/bar"), Some(5000));
    assert_eq!(ros.slave().publication_port("/foo"), None);
}

#[test]
fn remappings_are_recorded_in_their_order() {
    let mappings = vec![
        ("a".to_string(), "b".to_string()),
        ("/x".to_string(), "~y".to_string()),
    ];
    let ros = Ros::new("node", "/ns/", "m", "h", 1, &mappings).unwrap();
    assert_eq!(ros.resolve("a").unwrap(), "/ns/b");
    assert_eq!(ros.resolve("/x").unwrap(), "/ns/node/y");
    let bad = vec![
        ("a".to_string(), "b".to_string()),
        ("/x y".to_string(), "z".to_string()),
        ("/1".to_string(), "z".to_string()),
    ];
    assert_eq!(
        naming_error(Ros::new("node", "/ns", "m", "h", 1, &bad)),
        (ErrorKind::IllegalCharacter, "/x y".to_string())
    );
    assert_eq!(
        naming_error(Ros::new("no/de", "/ns", "m", "h", 1, &bad)),
        (ErrorKind::IllegalCharacter, "no/de".to_string())
    );
    let mut later = Ros::new("node", "/ns", "m", "h", 1, &Vec::new()).unwrap();
    later.map("c", "d").unwrap();
    assert_eq!(later.resolve("c").unwrap(), "/ns/d");
    match later.map("c", "/d d") {
        Err(Error::Naming(e)) => {
            assert_eq!(e.kind, ErrorKind::IllegalCharacter);
            assert_eq!(e.name, "/d d");
        }
        other => panic!("unexpected: {:?}", other),
    }
}

#[test]
fn advertising_registers_and_confirms() {
    let mut ros = node();
    let req = ros.publish("chatter", &text(), 5000).unwrap();
    assert_eq!(req.name, "/ns/chatter");
    assert_eq!(
        req.call,
        call("registerPublisher", &["/ns/node", "/ns/chatter", "std_msgs/String", "http://myhost:4242/"])
    );
    let reply: Response<Vec<String>> = response(1, "ok".to_string(), vec![]);
    assert_eq!(ros.publish_answered(&req.name, reply), Ok(()));
    assert_eq!(
        ros.slave().get_publications(),
        vec![("/ns/chatter".to_string(), "std_msgs/String".to_string())]
    );
    assert_eq!(
        ros.unpublish("/ns/chatter"),
        Some(call("unregisterPublisher", &["/ns/node", "/ns/chatter", "http://myhost:4242/"]))
    );
    assert_eq!(ros.slave().get_publications(), vec![]);
    assert_eq!(ros.unpublish("/ns/chatter"), None);
}

#[test]
fn a_failed_registration_takes_the_publication_back() {
    let mut ros = node();
    let req = ros.publish("chatter", &text(), 5000).unwrap();
    assert_eq!(ros.slave().publication_port("/ns/chatter"), Some(5000));
    let reply: Response<Vec<String>> = response(0, "directory is down".to_string(), vec![]);
    assert_eq!(
        ros.publish_answered(&req.name, reply),
        Err(Error::Response(ResponseError::Server("directory is down".into())))
    );
    assert_eq!(ros.slave().publication_port("/ns/chatter"), None);
    match ros.publish("chat ter", &text(), 5000) {
        Err(Error::Naming(e)) => assert_eq!(e.kind, ErrorKind::IllegalCharacter),
        other => panic!("unexpected: {:?}", other),
    }
    assert_eq!(ros.slave().get_publications(), vec![]);
}

#[test]
fn subscribing_connects_to_the_listed_publishers() {
    let mut ros = node();
    let req = ros.subscribe("/chatter", &text()).unwrap();
    assert_eq!(
        req.call,
        call("registerSubscriber", &["/ns/node", "/chatter", "std_msgs/String", "http://myhost:4242/"])
    );
    assert_eq!(ros.subscribe("/chatter", &text()), Err(Error::Duplicate("subscription".into())));
    let found = ros.subscribe_answered(&req.name, Ok(strings(&["http://a:1/", "http://b:2/", "http://a:1/"])));
    assert_eq!(found, Ok(strings(&["http://a:1/", "http://b:2/"])));
    assert_eq!(
        ros.publisher_update("/chatter", &strings(&["http://b:2/", "http://c:3/"])),
        Update { connect: strings(&["http://c:3/"]), close: strings(&["http://a:1/"]) }
    );
    let (gone, close) = ros.unsubscribe("/chatter");
    assert_eq!(gone, call("unregisterSubscriber", &["/ns/node", "/chatter", "http://myhost:4242/"]));
    assert_eq!(close, strings(&["http://b:2/", "http://c:3/"]));
    assert_eq!(ros.slave().get_subscriptions(), vec![]);
}

#[test]
fn a_failed_subscription_is_taken_back() {
    let mut ros = node();
    let req = ros.subscribe("/chatter", &text()).unwrap();
    let failed = ros.subscribe_answered(&req.name, Err(ResponseError::Transport("refused".into())));
    assert_eq!(failed, Err(Error::Response(ResponseError::Transport("refused".into()))));
    assert_eq!(ros.slave().get_subscriptions(), vec![]);
    assert!(ros.subscribe("/chatter", &text()).is_ok());
}

#[test]
fn offering_a_service_registers_its_address() {
    let mut ros = node();
    let req = ros.service("add", 7000).unwrap();
    assert_eq!(req.name, "/ns/add");
    assert_eq!(
        req.call,
        call("registerService", &["/ns/node", "/ns/add", "rosrpc://myhost:7000", "http://myhost:4242/"])
    );
    assert_eq!(ros.service("add", 7001), Err(Error::Duplicate("service".into())));
    assert_eq!(ros.service_answered(&req.name, response(1, String::new(), 1)), Ok(()));
    let second = ros.service("~other", 7002).unwrap();
    assert_eq!(second.name, "/ns/node/other");
    assert_eq!(
        ros.service_answered(&second.name, response(-1, "bad".to_string(), 0)),
        Err(Error::Response(ResponseError::Client("bad".into())))
    );
    assert_eq!(ros.service("~other", 7003).unwrap().name, "/ns/node/other");
}

#[test]
fn a_service_call_makes_the_round_trip() {
    let add = MessageType::new("test/Add", "abc", "");
    let mut ros = node();
    let offer = ros.service("/add", 7000).unwrap();
    ros.service_answered(&offer.name, response(1, String::new(), 1)).unwrap();
    let lookup = ros.client("/add").unwrap();
    assert_eq!(lookup.call, call("lookupService", &["/ns/node", "/add"]));
    let address = ros.client_found(&lookup.name, Ok("rosrpc://myhost:7000".to_string())).unwrap();
    assert_eq!(
        address,
        ClientAddress {
            caller_id: "/ns/node".into(),
            uri: "rosrpc://myhost:7000".into(),
            service: "/add".into(),
        }
    );
    let hello = client_request(&address.caller_id, &address.service, &add, false);
    let welcome = server_answer("/ns/node", "/add", &add, &hello).unwrap();
    assert_eq!(check_answer(&welcome, &add), Ok(()));
    let request = encode_frame(
        &message::encode(&vec![Atom::U64(3i64 as u64), Atom::U64(4i64 as u64)]).unwrap(),
    )
    .unwrap();
    let (body, _) = decode_frame(&request).unwrap();
    let (args, _) = message::decode(&vec![AtomKind::U64, AtomKind::U64], &body).unwrap().unwrap();
    let sum = match (&args[0], &args[1]) {
        (Atom::U64(a), Atom::U64(b)) => (*a as i64) + (*b as i64),
        _ => unreachable!(),
    };
    let reply = encode_result(&message::encode(&vec![Atom::U64(sum as u64)]).unwrap()).unwrap();
    let (outcome, used) = decode_response(&reply).unwrap().unwrap();
    assert_eq!(used, reply.len());
    let value = message::decode(&vec![AtomKind::U64], &outcome.unwrap()).unwrap().unwrap().0;
    assert_eq!(value, vec![Atom::U64(7)]);
    let failure = encode_failure("division by zero").unwrap();
    assert_eq!(decode_response(&failure).unwrap().unwrap().0, Err("division by zero".to_string()));
}

#[test]
fn a_lookup_error_is_handed_on() {
    let ros = node();
    assert_eq!(
        ros.client_found("/add", Err(ResponseError::Client("no provider".into()))),
        Err(Error::Response(ResponseError::Client("no provider".into())))
    );
    match ros.client("a b") {
        Err(Error::Naming(e)) => assert_eq!(e.name, "a b"),
        other => panic!("unexpected: {:?}", other),
    }
}

#[test]
fn waiting_for_a_missing_service_times_out() {
    let ros = node();
    let wait = ros.wait_for_service("/missing", Some(200_000_000)).unwrap();
    assert_eq!(wait.call, call("lookupService", &["/ns/node", "/missing"]));
    assert_eq!(wait.timeout, Some(200_000_000));
    let missing = || -> Response<String> { response(-1, "no provider".to_string(), String::new()) };
    let mut elapsed: u128 = 0;
    let mut polls = 0;
    let end = loop {
        match wait.step(missing(), elapsed) {
            Poll::Retry(ms) => {
                assert_eq!(ms, 100);
                assert_eq!(ms, POLL_MILLIS);
                elapsed += (ms as u128) * 1_000_000 + 1;
                polls += 1;
            }
            other => break other,
        }
    };
    assert_eq!(end, Poll::Failed(Error::Timeout));
    assert!(elapsed >= 200_000_000);
    assert_eq!(polls, 2);
    assert_eq!(wait.step(missing(), 200_000_000), Poll::Retry(100));
    assert_eq!(wait.step(missing(), 200_000_001), Poll::Failed(Error::Timeout));
}

#[test]
fn waiting_ends_on_success_and_on_other_errors() {
    let ros = node();
    let wait = ros.wait_for_service("add", None).unwrap();
    assert_eq!(wait.call, call("lookupService", &["/ns/node", "/ns/add"]));
    assert_eq!(wait.step(Ok("rosrpc://h:1".to_string()), 0), Poll::Ready);
    assert_eq!(wait.step(Ok("rosrpc://h:1".to_string()), u128::MAX), Poll::Ready);
    assert_eq!(
        wait.step::<String>(Err(ResponseError::Client("no provider".into())), u128::MAX),
        Poll::Retry(100)
    );
    assert_eq!(
        wait.step::<String>(Err(ResponseError::Server("no provider".into())), 0),
        Poll::Failed(Error::Response(ResponseError::Server("no provider".into())))
    );
    assert_eq!(
        wait.step::<String>(Err(ResponseError::Client("other".into())), 0),
        Poll::Failed(Error::Response(ResponseError::Client("other".into())))
    );
    assert_eq!(
        wait.step::<String>(Err(ResponseError::Transport("down".into())), 0),
        Poll::Failed(Error::Response(ResponseError::Transport("down".into())))
    );
    let timed = ros.wait_for_service("add", Some(0)).unwrap();
    assert_eq!(timed.step(Ok(String::new()), 5), Poll::Ready);
    assert_eq!(
        timed.step::<String>(Err(ResponseError::Client("no provider".into())), 0),
        Poll::Retry(100)
    );
    assert!(ros.wait_for_service("a b", None).is_err());
}

#[test]
fn parameters_are_asked_for_by_their_absolute_name() {
    let ros = node();
    let p = ros.param("~rate").unwrap();
    assert_eq!(p.name(), "/ns/node/rate");
    assert_eq!(p.get(), call("getParam", &["/ns/node", "/ns/node/rate"]));
    assert_eq!(p.get_raw(), call("getParam", &["/ns/node", "/ns/node/rate"]));
    assert_eq!(p.set(), call("setParam", &["/ns/node", "/ns/node/rate"]));
    assert_eq!(p.delete(), call("deleteParam", &["/ns/node", "/ns/node/rate"]));
    assert_eq!(p.is_set(), call("hasParam", &["/ns/node", "/ns/node/rate"]));
    assert_eq!(p.search(), call("searchParam", &["/ns/node", "/ns/node/rate"]));
    assert_eq!(ros.param("/global").unwrap().name(), "/global");
    assert_eq!(ros.param("rel").unwrap().name(), "/ns/rel");
    assert!(ros.param("no good").is_none());
    assert!(ros.param("").is_none());
    assert_eq!(ros.parameters(), call("getParamNames", &["/ns/node"]));
    assert_eq!(ros.state(), call("getSystemState", &["/ns/node"]));
    assert_eq!(ros.topics(), call("getTopicTypes", &["/ns/node"]));
}

#[test]
fn a_node_shuts_down_once() {
    let mut ros = node();
    let p = ros.publish("/p", &text(), 5000).unwrap();
    ros.publish_answered(&p.name, Ok(())).unwrap();
    let plan = ros.shutdown();
    assert_eq!(
        plan,
        vec![
            Action::StopServer,
            Action::Directory(call("unregisterPublisher", &["/ns/node", "/p", "http://myhost:4242/"])),
            Action::ClosePublication("/p".into(), 5000),
            Action::Drain,
        ]
    );
    assert_eq!(ros.shutdown(), vec![]);
    assert_eq!(ros.publish("/p", &text(), 5000), Err(Error::Shutdown));
    assert_eq!(ros.subscribe("/p", &text()), Err(Error::Shutdown));
    assert_eq!(ros.service("/p", 1), Err(Error::Shutdown));
}

#[test]
fn the_handle_answers_peers_and_the_directory() {
    let mut ros = node();
    let p = ros.publish("/p", &text(), 5000).unwrap();
    ros.publish_answered(&p.name, Ok(())).unwrap();
    let s = ros.subscribe("/s", &text()).unwrap();
    assert_eq!(ros.subscribe_answered(&s.name, Ok(strings(&["u1"]))), Ok(strings(&["u1"])));
    assert_eq!(
        ros.handle(Inbound::GetMasterUri, 1),
        Ok(Outbound::Text("http://localhost:11311/".into()))
    );
    assert_eq!(
        ros.handle(Inbound::PublisherUpdate("/s".into(), strings(&["u2"])), 1),
        Ok(Outbound::Connections(Update { connect: strings(&["u2"]), close: strings(&["u1"]) }))
    );
    let hello = ros.subscriber_hello("/s", false).unwrap();
    assert_eq!(hello, subscriber_request("/ns/node", "/s", &text(), false));
    let answer = ros.accept_subscriber("/p", &hello, 1);
    assert!(answer.is_err());
    let request = subscriber_request("/peer", "/p", &text(), false);
    let welcome = ros.accept_subscriber("/p", &request, 1).unwrap();
    assert_eq!(ros.publisher_answered("/s", "u2", &welcome), Ok(()));
    assert_eq!(
        ros.publisher_answered("/s", "u2", &answer.unwrap_err()),
        Err(Error::Protocol(Fault::Rejected(
            "field 'topic' expected '/p', received '/s'".into()
        )))
    );
    assert_eq!(ros.unsubscribe("/s").1, Vec::<String>::new());
    assert_eq!(ros.broadcast("/p", &[1, 2]).unwrap(), vec![(1, vec![2, 0, 0, 0, 1, 2])]);
    ros.stream_closed("/p", 1);
    assert_eq!(ros.broadcast("/p", &[1, 2]).unwrap(), vec![]);
    let s2 = ros.subscribe("/s2", &text()).unwrap();
    ros.subscribe_answered(&s2.name, Ok(strings(&["a", "b"]))).unwrap();
    ros.drop_publisher("/s2", "a");
    assert_eq!(ros.unsubscribe("/s2").1, strings(&["b"]));
}
