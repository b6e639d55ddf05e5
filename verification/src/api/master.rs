//! The directory client: which call stands for which operation, and what
//! the directory's snapshots look like.

use vstd::prelude::*;
use crate::text::views;

verus! {

/// One call of the control plane: the method and its arguments in order.
#[derive(Clone, Debug, PartialEq, Eq)]
pub struct Call {
    pub method: String,
    pub args: Vec<String>,
}

impl Call {
    /// The call is of `method` with exactly the arguments `args`.
    pub open spec fn is(&self, method: Seq<char>, args: Seq<Seq<char>>) -> bool {
        self.method@ == method && views(self.args@) == args
    }
}

/// The characters of each string slice of a list.
pub open spec fn slices(v: Seq<&str>) -> Seq<Seq<char>> {
    v.map_values(|s: &str| s@)
}

fn call(method: &str, args: Vec<&str>) -> (r: Call)
    ensures
        r.is(method@, slices(args@)),
{
    let mut owned: Vec<String> = Vec::new();
    let mut i: usize = 0;
    while i < args.len()
        invariant
            i <= args.len(),
            views(owned@) == slices(args@).take(i as int),
        decreases args.len() - i,
    {
        let ghost before = views(owned@);
        let item: String = String::from_str(args[i]);
        owned.push(item);
        assert(views(owned@) =~= before.push(args@[i as int]@));
        assert(slices(args@)[i as int] == args@[i as int]@);
        assert(views(owned@) =~= slices(args@).take(i + 1));
        i += 1;
    }
    assert(slices(args@).take(args.len() as int) =~= slices(args@));
    Call { method: method.to_owned(), args: owned }
}

/// The node's side of the directory: who calls, and where the directory can
/// call back.
pub struct Master {
    master_uri: String,
    client_id: String,
    caller_api: String,
}

/// What every call to the directory carries.
pub struct MasterModel {
    pub master_uri: Seq<char>,
    pub client_id: Seq<char>,
    pub caller_api: Seq<char>,
}

impl View for Master {
    type V = MasterModel;

    closed spec fn view(&self) -> MasterModel {
        MasterModel {
            master_uri: self.master_uri@,
            client_id: self.client_id@,
            caller_api: self.caller_api@,
        }
    }
}

impl Master {
    /// A client for the directory at `master_uri`, for the node `client_id`
    /// whose own endpoint is `caller_api`.
    pub fn new(master_uri: &str, client_id: &str, caller_api: &str) -> (r: Master)
        ensures
            r@.master_uri == master_uri@,
            r@.client_id == client_id@,
            r@.caller_api == caller_api@,
    {
        Master {
            master_uri: master_uri.to_owned(),
            client_id: client_id.to_owned(),
            caller_api: caller_api.to_owned(),
        }
    }

    /// Where the directory is.
    pub fn uri(&self) -> (r: &str)
        ensures
            r@ == self@.master_uri,
    {
        self.master_uri.as_str()
    }

    /// The name under which the node calls.
    pub fn client_id(&self) -> (r: &str)
        ensures
            r@ == self@.client_id,
    {
        self.client_id.as_str()
    }

    /// Announces that the node publishes `topic` with messages of `msg_type`.
    /// The answer lists the endpoints of the current subscribers.
    pub fn register_publisher(&self, topic: &str, msg_type: &str) -> (r: Call)
        ensures
            r.is(
                "registerPublisher"@,
                seq![self@.client_id, topic@, msg_type@, self@.caller_api],
            ),
    {
        let args = vec![self.client_id.as_str(), topic, msg_type, self.caller_api.as_str()];
        assert(slices(args@) =~= seq![self@.client_id, topic@, msg_type@, self@.caller_api]);
        call("registerPublisher", args)
    }

    /// Takes back the announcement that the node publishes `topic`.
    pub fn unregister_publisher(&self, topic: &str) -> (r: Call)
        ensures
            r.is("unregisterPublisher"@, seq![self@.client_id, topic@, self@.caller_api]),
    {
        let args = vec![self.client_id.as_str(), topic, self.caller_api.as_str()];
        assert(slices(args@) =~= seq![self@.client_id, topic@, self@.caller_api]);
        call("unregisterPublisher", args)
    }

    /// Announces that the node subscribes to `topic` with messages of
    /// `msg_type`. The answer lists the endpoints of the current publishers.
    pub fn register_subscriber(&self, topic: &str, msg_type: &str) -> (r: Call)
        ensures
            r.is(
                "registerSubscriber"@,
                seq![self@.client_id, topic@, msg_type@, self@.caller_api],
            ),
    {
        let args = vec![self.client_id.as_str(), topic, msg_type, self.caller_api.as_str()];
        assert(slices(args@) =~= seq![self@.client_id, topic@, msg_type@, self@.caller_api]);
        call("registerSubscriber", args)
    }

    /// Takes back the announcement that the node subscribes to `topic`.
    pub fn unregister_subscriber(&self, topic: &str) -> (r: Call)
        ensures
            r.is("unregisterSubscriber"@, seq![self@.client_id, topic@, self@.caller_api]),
    {
        let args = vec![self.client_id.as_str(), topic, self.caller_api.as_str()];
        assert(slices(args@) =~= seq![self@.client_id, topic@, self@.caller_api]);
        call("unregisterSubscriber", args)
    }

    /// Announces that the node offers `service` at `api`.
    pub fn register_service(&self, service: &str, api: &str) -> (r: Call)
        ensures
            r.is("registerService"@, seq![self@.client_id, service@, api@, self@.caller_api]),
    {
        let args = vec![self.client_id.as_str(), service, api, self.caller_api.as_str()];
        assert(slices(args@) =~= seq![self@.client_id, service@, api@, self@.caller_api]);
        call("registerService", args)
    }

    /// Takes back the announcement that the node offers `service` at `api`.
    pub fn unregister_service(&self, service: &str, api: &str) -> (r: Call)
        ensures
            r.is("unregisterService"@, seq![self@.client_id, service@, api@]),
    {
        let args = vec![self.client_id.as_str(), service, api];
        assert(slices(args@) =~= seq![self@.client_id, service@, api@]);
        call("unregisterService", args)
    }

    /// Asks where `service` is offered.
    pub fn lookup_service(&self, service: &str) -> (r: Call)
        ensures
            r.is("lookupService"@, seq![self@.client_id, service@]),
    {
        let args = vec![self.client_id.as_str(), service];
        assert(slices(args@) =~= seq![self@.client_id, service@]);
        call("lookupService", args)
    }

    /// Asks for the value of the parameter `key`.
    pub fn get_param(&self, key: &str) -> (r: Call)
        ensures
            r.is("getParam"@, seq![self@.client_id, key@]),
    {
        let args = vec![self.client_id.as_str(), key];
        assert(slices(args@) =~= seq![self@.client_id, key@]);
        call("getParam", args)
    }

    /// Sets the parameter `key`. The value follows the arguments given here.
    pub fn set_param(&self, key: &str) -> (r: Call)
        ensures
            r.is("setParam"@, seq![self@.client_id, key@]),
    {
        let args = vec![self.client_id.as_str(), key];
        assert(slices(args@) =~= seq![self@.client_id, key@]);
        call("setParam", args)
    }

    /// Deletes the parameter `key`.
    pub fn delete_param(&self, key: &str) -> (r: Call)
        ensures
            r.is("deleteParam"@, seq![self@.client_id, key@]),
    {
        let args = vec![self.client_id.as_str(), key];
        assert(slices(args@) =~= seq![self@.client_id, key@]);
        call("deleteParam", args)
    }

    /// Asks whether the parameter `key` is set.
    pub fn has_param(&self, key: &str) -> (r: Call)
        ensures
            r.is("hasParam"@, seq![self@.client_id, key@]),
    {
        let args = vec![self.client_id.as_str(), key];
        assert(slices(args@) =~= seq![self@.client_id, key@]);
        call("hasParam", args)
    }

    /// Asks for the closest parameter named `key`, from the node's namespace
    /// upwards.
    pub fn search_param(&self, key: &str) -> (r: Call)
        ensures
            r.is("searchParam"@, seq![self@.client_id, key@]),
    {
        let args = vec![self.client_id.as_str(), key];
        assert(slices(args@) =~= seq![self@.client_id, key@]);
        call("searchParam", args)
    }

    /// Asks for the names of all parameters.
    pub fn get_param_names(&self) -> (r: Call)
        ensures
            r.is("getParamNames"@, seq![self@.client_id]),
    {
        let args = vec![self.client_id.as_str()];
        assert(slices(args@) =~= seq![self@.client_id]);
        call("getParamNames", args)
    }

    /// Asks for a snapshot of publishers, subscribers and services.
    pub fn get_system_state(&self) -> (r: Call)
        ensures
            r.is("getSystemState"@, seq![self@.client_id]),
    {
        let args = vec![self.client_id.as_str()];
        assert(slices(args@) =~= seq![self@.client_id]);
        call("getSystemState", args)
    }

    /// Asks for the topics and the type of each.
    pub fn get_topic_types(&self) -> (r: Call)
        ensures
            r.is("getTopicTypes"@, seq![self@.client_id]),
    {
        let args = vec![self.client_id.as_str()];
        assert(slices(args@) =~= seq![self@.client_id]);
        call("getTopicTypes", args)
    }
}

/// A topic or a service, and the nodes connected to it.
#[derive(Clone, Debug, PartialEq, Eq)]
pub struct TopicData {
    pub name: String,
    pub connections: Vec<String>,
}

/// A snapshot of the graph.
#[derive(Clone, Debug, PartialEq, Eq)]
pub struct SystemState {
    pub publishers: Vec<TopicData>,
    pub subscribers: Vec<TopicData>,
    pub services: Vec<TopicData>,
}

/// A topic and the type of its messages.
#[derive(Clone, Debug, PartialEq, Eq)]
pub struct Topic {
    pub name: String,
    pub datatype: String,
}

/// The items of a list, last first.
fn reversed<T>(list: Vec<T>) -> (r: Vec<T>)
    ensures
        r@.len() == list@.len(),
        forall|i: int| 0 <= i < r@.len() ==> r@[i] == list@[list@.len() - 1 - i],
{
    let mut list = list;
    let ghost all = list@;
    let mut out: Vec<T> = Vec::new();
    while list.len() > 0
        invariant
            list@.len() <= all.len(),
            list@ == all.take(list@.len() as int),
            out@.len() == all.len() - list@.len(),
            forall|i: int| 0 <= i < out@.len() ==> out@[i] == all[all.len() - 1 - i],
        decreases list@.len(),
    {
        let item = list.pop().unwrap();
        out.push(item);
    }
    out
}

/// Names the two parts of each entry of a snapshot.
pub fn topic_data(raw: Vec<(String, Vec<String>)>) -> (r: Vec<TopicData>)
    ensures
        r@.len() == raw@.len(),
        forall|i: int|
            0 <= i < raw@.len() ==> (#[trigger] r@[i]).name == raw@[i].0 && r@[i].connections
                == raw@[i].1,
{
    let mut rest = reversed(raw);
    let ghost n = raw@.len() as int;
    let mut out: Vec<TopicData> = Vec::new();
    while rest.len() > 0
        invariant
            n == raw@.len(),
            rest@.len() <= n,
            out@.len() == n - rest@.len(),
            forall|i: int| 0 <= i < rest@.len() ==> rest@[i] == raw@[n - 1 - i],
            forall|i: int|
                0 <= i < out@.len() ==> (#[trigger] out@[i]).name == raw@[i].0
                    && out@[i].connections == raw@[i].1,
        decreases rest@.len(),
    {
        let entry = rest.pop().unwrap();
        out.push(TopicData { name: entry.0, connections: entry.1 });
    }
    out
}

/// Names the two parts of each entry of a list of topics.
pub fn topics(raw: Vec<(String, String)>) -> (r: Vec<Topic>)
    ensures
        r@.len() == raw@.len(),
        forall|i: int|
            0 <= i < raw@.len() ==> (#[trigger] r@[i]).name == raw@[i].0 && r@[i].datatype
                == raw@[i].1,
{
    let mut rest = reversed(raw);
    let ghost n = raw@.len() as int;
    let mut out: Vec<Topic> = Vec::new();
    while rest.len() > 0
        invariant
            n == raw@.len(),
            rest@.len() <= n,
            out@.len() == n - rest@.len(),
            forall|i: int| 0 <= i < rest@.len() ==> rest@[i] == raw@[n - 1 - i],
            forall|i: int|
                0 <= i < out@.len() ==> (#[trigger] out@[i]).name == raw@[i].0
                    && out@[i].datatype == raw@[i].1,
        decreases rest@.len(),
    {
        let entry = rest.pop().unwrap();
        out.push(Topic { name: entry.0, datatype: entry.1 });
    }
    out
}

/// Names the three parts of a snapshot.
pub fn system_state(
    raw: (Vec<(String, Vec<String>)>, Vec<(String, Vec<String>)>, Vec<(String, Vec<String>)>),
) -> (r: SystemState)
    ensures
        r.publishers@.len() == raw.0@.len(),
        forall|i: int|
            0 <= i < raw.0@.len() ==> (#[trigger] r.publishers@[i]).name == raw.0@[i].0
                && r.publishers@[i].connections == raw.0@[i].1,
        r.subscribers@.len() == raw.1@.len(),
        forall|i: int|
            0 <= i < raw.1@.len() ==> (#[trigger] r.subscribers@[i]).name == raw.1@[i].0
                && r.subscribers@[i].connections == raw.1@[i].1,
        r.services@.len() == raw.2@.len(),
        forall|i: int|
            0 <= i < raw.2@.len() ==> (#[trigger] r.services@[i]).name == raw.2@[i].0
                && r.services@[i].connections == raw.2@[i].1,
{
    SystemState {
        publishers: topic_data(raw.0),
        subscribers: topic_data(raw.1),
        services: topic_data(raw.2),
    }
}

} // verus!
