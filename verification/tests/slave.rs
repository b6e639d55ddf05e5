use rosrust::api::error::Error;
use rosrust::api::master::Call;
use rosrust::api::slave::{Action, Slave, Update};
use rosrust::rosxmlrpc::ResponseError;
use rosrust::tcpros::descriptor::MessageType;
use rosrust::tcpros::error::WireError;
use rosrust::tcpros::frame::decode_frames;
use rosrust::tcpros::handshake::{check_answer, subscriber_request, Fault};
use rosrust::tcpros::header::get;
use rosrust::tcpros::message;
use rosrust::tcpros::message::{Atom, AtomKind};

fn text() -> MessageType {
    MessageType::new("std_msgs/String", "992ce8a1687cec8c8bd883ec73ca41d1", "string data\n")
}

fn slave() -> Slave {
    Slave::new("http://localhost:11311/", "myhost", 4242, "/talker")
}

fn strings(list: &[&str]) -> Vec<String> {
    list.iter().map(|s| s.to_string()).collect()
}

fn call(method: &str, args: &[&str]) -> Action {
    Action::Directory(Call { method: method.to_string(), args: strings(args) })
}

#[test]
fn a_node_knows_who_it_is() {
    let s = slave();
    assert_eq!(s.uri(), "http://myhost:4242/");
    assert_eq!(s.name(), "/talker");
    assert_eq!(s.get_master_uri(), "http://localhost:11311/");
    assert!(s.is_running());
    assert_eq!(Slave::new("m", "h", 0, "/n").uri(), "http://h:0/");
    assert_eq!(Slave::new("m", "h", 65535, "/n").uri(), "http://h:65535/");
    assert_eq!(Slave::new("m", "h", 10, "/n").uri(), "http://h:10/");
    assert_eq!(Slave::new("m", "h", 9, "/n").uri(), "http://h:9/");
    assert_eq!(Slave::new("m", "h", 1001, "/n").uri(), "http://h:1001/");
}

#[test]
fn adding_a_publication_twice_keeps_the_first() {
    let mut s = slave();
    assert_eq!(s.publication_port("/chatter"), None);
    assert_eq!(s.add_publication("/chatter", &text(), 5000), Ok(5000));
    assert_eq!(s.add_publication("/chatter", &text(), 6000), Ok(5000));
    assert_eq!(s.publication_port("/chatter"), Some(5000));
    assert_eq!(s.add_publication("/other", &text(), 6000), Ok(6000));
    assert_eq!(
        s.get_publications(),
        vec![
            ("/chatter".to_string(), "std_msgs/String".to_string()),
            ("/other".to_string(), "std_msgs/String".to_string()),
        ]
    );
    assert_eq!(s.remove_publication("/chatter"), Vec::<u64>::new());
    assert_eq!(s.publication_port("/chatter"), None);
    assert_eq!(s.get_publications(), vec![("/other".to_string(), "std_msgs/String".to_string())]);
    assert_eq!(s.remove_publication("/chatter"), Vec::<u64>::new());
}

#[test]
fn a_topic_is_subscribed_to_once() {
    let mut s = slave();
    assert_eq!(s.add_subscription("/t", &text()), Ok(()));
    assert_eq!(s.add_subscription("/t", &text()), Err(Error::Duplicate("subscription".into())));
    assert_eq!(s.add_subscription("/u", &text()), Ok(()));
    assert_eq!(
        s.get_subscriptions(),
        vec![
            ("/t".to_string(), "std_msgs/String".to_string()),
            ("/u".to_string(), "std_msgs/String".to_string()),
        ]
    );
    assert_eq!(s.remove_subscription("/t"), Vec::<String>::new());
    assert_eq!(s.add_subscription("/t", &text()), Ok(()));
    assert_eq!(s.get_subscriptions()[0].0, "/u");
}

#[test]
fn a_service_is_offered_once() {
    let mut s = slave();
    assert_eq!(s.add_service("/add", 7000), Ok("rosrpc://myhost:7000".to_string()));
    assert_eq!(s.add_service("/add", 7001), Err(Error::Duplicate("service".into())));
    assert_eq!(s.remove_service("/add"), Some(7000));
    assert_eq!(s.remove_service("/add"), None);
    assert_eq!(s.add_service("/add", 7001), Ok("rosrpc://myhost:7001".to_string()));
}

#[test]
fn publisher_update_opens_and_closes_connections() {
    let mut s = slave();
    s.add_subscription("/t", &text()).unwrap();
    let first = s.publisher_update("/t", &strings(&["http://a:1/", "http://b:2/"]));
    assert_eq!(
        first,
        Update { connect: strings(&["http://a:1/", "http://b:2/"]), close: vec![] }
    );
    let second = s.publisher_update("/t", &strings(&["http://a:1/"]));
    assert_eq!(second, Update { connect: vec![], close: strings(&["http://b:2/"]) });
    let third = s.publisher_update("/t", &strings(&["http://c:3/", "http://a:1/", "http://c:3/"]));
    assert_eq!(third, Update { connect: strings(&["http://c:3/"]), close: vec![] });
    let fourth = s.publisher_update("/t", &Vec::new());
    assert_eq!(fourth, Update { connect: vec![], close: strings(&["http://c:3/", "http://a:1/"]) });
    let unknown = s.publisher_update("/nothing", &strings(&["http://a:1/"]));
    assert_eq!(unknown, Update { connect: vec![], close: vec![] });
}

#[test]
fn publishers_are_added_once() {
    let mut s = slave();
    s.add_subscription("/t", &text()).unwrap();
    assert_eq!(
        s.add_publishers_to_subscription("/t", &strings(&["u1", "u2", "u1"])),
        strings(&["u1", "u2"])
    );
    assert_eq!(
        s.add_publishers_to_subscription("/t", &strings(&["u2", "u3"])),
        strings(&["u3"])
    );
    assert_eq!(s.add_publishers_to_subscription("/none", &strings(&["u1"])), Vec::<String>::new());
    s.drop_publisher("/t", "u2");
    s.drop_publisher("/t", "unknown");
    s.drop_publisher("/none", "u1");
    assert_eq!(s.add_publishers_to_subscription("/t", &strings(&["u2"])), strings(&["u2"]));
    assert_eq!(s.remove_subscription("/t"), strings(&["u1", "u3", "u2"]));
}

#[test]
fn request_topic_names_protocol_host_and_port() {
    let mut s = slave();
    s.add_publication("/chatter", &text(), 5000).unwrap();
    let tcp = vec![strings(&["UDPROS", "x"]), strings(&["TCPROS"])];
    assert_eq!(
        s.request_topic("/chatter", &tcp),
        Ok(("TCPROS".to_string(), "myhost".to_string(), 5000))
    );
    assert_eq!(
        s.request_topic("/missing", &tcp),
        Err(ResponseError::Client("Requested topic not published by node".into()))
    );
    let udp = vec![strings(&["UDPROS"]), vec![], strings(&["x", "TCPROS"])];
    assert_eq!(
        s.request_topic("/chatter", &udp),
        Err(ResponseError::Server("No matching protocols available".into()))
    );
    assert_eq!(
        s.request_topic("/chatter", &Vec::new()),
        Err(ResponseError::Server("No matching protocols available".into()))
    );
    let mut high = slave();
    high.add_publication("/p", &text(), 65535).unwrap();
    assert_eq!(high.request_topic("/p", &tcp).unwrap().2, 65535);
}

#[test]
fn a_subscriber_with_another_fingerprint_is_refused_and_the_publication_stays() {
    let mut s = slave();
    let offered = MessageType::new("pkg/Foo", "aaa", "");
    let claimed = MessageType::new("pkg/Foo", "bbb", "");
    s.add_publication("/foo", &offered, 5000).unwrap();
    let bad = subscriber_request("/listener", "/foo", &claimed, false);
    let refused = s.accept_subscriber("/foo", &bad, 1).unwrap_err();
    assert_eq!(refused.len(), 1);
    assert_eq!(refused[0].0, "error");
    assert_eq!(refused[0].1, "field 'md5sum' expected 'aaa', received 'bbb'");
    assert_eq!(check_answer(&refused, &claimed), Err(Fault::Rejected(refused[0].1.clone())));
    assert_eq!(s.publication_port("/foo"), Some(5000));
    assert_eq!(s.broadcast("/foo", b"x").unwrap(), vec![]);
    let good = subscriber_request("/other", "/foo", &offered, false);
    let answer = s.accept_subscriber("/foo", &good, 2).unwrap();
    assert_eq!(get(&answer, "callerid"), Some(&"/talker".to_string()));
    assert_eq!(get(&answer, "md5sum"), Some(&"aaa".to_string()));
    assert_eq!(check_answer(&answer, &offered), Ok(()));
    assert_eq!(s.broadcast("/foo", b"x").unwrap().len(), 1);
    let nowhere = s.accept_subscriber("/bar", &good, 3).unwrap_err();
    assert_eq!(nowhere[0], ("error".to_string(), "topic is not published by this node".to_string()));
}

#[test]
fn a_published_message_reaches_each_subscriber_once() {
    let mut s = slave();
    s.add_publication("/chatter", &text(), 5000).unwrap();
    let request = subscriber_request("/listener", "/chatter", &text(), false);
    s.accept_subscriber("/chatter", &request, 10).unwrap();
    s.accept_subscriber("/chatter", &request, 11).unwrap();
    s.accept_subscriber("/chatter", &request, 10).unwrap();
    let body = message::encode(&vec![Atom::Text("hello".to_string())]).unwrap();
    let sent = s.broadcast("/chatter", &body).unwrap();
    assert_eq!(sent.len(), 2);
    assert_eq!(sent[0].0, 10);
    assert_eq!(sent[1].0, 11);
    for (_, bytes) in &sent {
        let (frames, used) = decode_frames(bytes);
        assert_eq!(used, bytes.len());
        assert_eq!(frames.len(), 1);
        let (atoms, _) = message::decode(&vec![AtomKind::Text], &frames[0]).unwrap().unwrap();
        assert_eq!(atoms, vec![Atom::Text("hello".to_string())]);
    }
    s.stream_closed("/chatter", 10);
    s.stream_closed("/chatter", 99);
    s.stream_closed("/none", 11);
    let sent = s.broadcast("/chatter", &body).unwrap();
    assert_eq!(sent.len(), 1);
    assert_eq!(sent[0].0, 11);
    assert_eq!(s.broadcast("/none", &body).unwrap(), vec![]);
    assert_eq!(s.remove_publication("/chatter"), vec![11]);
}

#[test]
fn wire_errors_have_their_kinds() {
    assert_ne!(WireError::TooLong, WireError::Truncated);
    assert_ne!(WireError::MissingEquals, WireError::InvalidText);
    assert_ne!(WireError::BadStatus, WireError::TooLong);
}

#[test]
fn shutdown_unregisters_before_it_closes() {
    let mut s = slave();
    s.add_publication("/p1", &text(), 5001).unwrap();
    s.add_subscription("/s1", &text()).unwrap();
    s.add_service("/v1", 7001).unwrap();
    s.add_publication("/p2", &text(), 5002).unwrap();
    s.publication_registered("/p1");
    s.subscription_registered("/s1");
    s.service_registered("/v1");
    let plan = s.shutdown();
    assert_eq!(
        plan,
        vec![
            Action::StopServer,
            call("unregisterPublisher", &["/talker", "/p1", "http://myhost:4242/"]),
            call("unregisterPublisher", &["/talker", "/p2", "http://myhost:4242/"]),
            call("unregisterSubscriber", &["/talker", "/s1", "http://myhost:4242/"]),
            call("unregisterService", &["/talker", "/v1", "rosrpc://myhost:7001"]),
            Action::ClosePublication("/p1".into(), 5001),
            Action::ClosePublication("/p2".into(), 5002),
            Action::CloseSubscription("/s1".into()),
            Action::CloseService("/v1".into(), 7001),
            Action::Drain,
        ]
    );
    assert!(!s.is_running());
    assert_eq!(s.get_publications(), vec![]);
    assert_eq!(s.get_subscriptions(), vec![]);
    assert_eq!(s.shutdown(), vec![]);
    assert_eq!(s.add_publication("/p", &text(), 1), Err(Error::Shutdown));
    assert_eq!(s.add_subscription("/s", &text()), Err(Error::Shutdown));
    assert_eq!(s.add_service("/v", 1), Err(Error::Shutdown));
}

#[test]
fn an_idle_node_shuts_down_in_two_steps() {
    let mut s = slave();
    assert_eq!(s.shutdown(), vec![Action::StopServer, Action::Drain]);
    assert_eq!(s.shutdown(), vec![]);
}

#[test]
fn a_publisher_with_another_type_is_dropped_and_the_subscription_goes_on() {
    let mut s = slave();
    s.add_subscription("/t", &text()).unwrap();
    assert_eq!(
        s.subscriber_hello("/t", true),
        Some(subscriber_request("/talker", "/t", &text(), true))
    );
    assert_eq!(s.subscriber_hello("/none", false), None);
    s.add_publishers_to_subscription("/t", &strings(&["u1", "u2"]));
    let good = vec![
        ("md5sum".to_string(), "992ce8a1687cec8c8bd883ec73ca41d1".to_string()),
        ("type".to_string(), "std_msgs/String".to_string()),
    ];
    assert_eq!(s.publisher_answered("/t", "u1", &good), Ok(()));
    let bad = vec![
        ("md5sum".to_string(), "other".to_string()),
        ("type".to_string(), "std_msgs/String".to_string()),
    ];
    assert_eq!(
        s.publisher_answered("/t", "u2", &bad),
        Err(Fault::Mismatch(
            "md5sum".into(),
            "992ce8a1687cec8c8bd883ec73ca41d1".into(),
            "other".into()
        ))
    );
    let refused = vec![("error".to_string(), "no".to_string())];
    assert_eq!(s.publisher_answered("/t", "u3", &refused), Err(Fault::Rejected("no".into())));
    assert_eq!(
        s.publisher_answered("/none", "u1", &good),
        Err(Fault::Rejected("topic is not subscribed to by this node".into()))
    );
    assert_eq!(s.get_subscriptions().len(), 1);
    assert_eq!(s.remove_subscription("/t"), strings(&["u1"]));
}
