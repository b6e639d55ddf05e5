//! The handle that user code holds: it resolves names, says what to ask of
//! the directory, and keeps the node's local state in step with the answers.

use vstd::prelude::*;
use crate::api::error::Error;
use crate::api::master::{Call, Master, MasterModel};
use crate::api::naming;
use crate::api::naming::{ErrorKind, Resolver, ResolverModel};
use crate::api::slave::{
    reported_with, with_report, publisher_fault, accepted, handled, sent, without_stream, Inbound, Outbound, actions, lost_publishers, shutdown_plan, stopped, Action, Update, new_publishers, publication_confirmed, publishers_of, service_confirmed, slave_uri,
    subscription_confirmed, with_publication, with_publishers, with_service, with_subscription,
    without_publication, without_service, without_subscription, Slave, SlaveModel,
};
use crate::rosxmlrpc::{Response, ResponseError};
use crate::tcpros::error::WireError;
use crate::tcpros::handshake::subscriber_header;
use crate::text::without;
use crate::tcpros::descriptor::MessageType;
use crate::text::{find_char, pairs, same_text, views};

verus! {

/// A text without the slashes at its end.
pub open spec fn trimmed(s: Seq<char>) -> Seq<char>
    decreases s.len(),
{
    if s.len() > 0 && s.last() == '/' {
        trimmed(s.drop_last())
    } else {
        s
    }
}

/// The absolute name of the node `name` in `namespace`.
pub open spec fn node_name(namespace: Seq<char>, name: Seq<char>) -> Seq<char> {
    trimmed(namespace) + seq!['/'] + name
}

/// What the contracts say of a node handle.
pub struct RosModel {
    pub master: MasterModel,
    pub slave: SlaveModel,
    pub hostname: Seq<char>,
    pub resolver: ResolverModel,
    pub name: Seq<char>,
}

/// The parts of a handle speak of one node: the resolver, the local state
/// and the directory client carry its name, and the directory client calls
/// back where the local state is served.
pub open spec fn consistent(m: RosModel) -> bool {
    &&& naming::valid(m.resolver)
    &&& crate::api::slave::valid(m.slave)
    &&& m.resolver.name == m.name
    &&& m.slave.name == m.name
    &&& m.slave.hostname == m.hostname
    &&& m.master.client_id == m.name
    &&& m.master.caller_api == m.slave.uri
    &&& m.master.master_uri == m.slave.master_uri
}

/// The handle of a node right after it was made, or the name that was
/// refused and why: a node's own name holds no slash, and its absolute name
/// must be well formed.
pub open spec fn started(
    master_uri: Seq<char>,
    hostname: Seq<char>,
    namespace: Seq<char>,
    name: Seq<char>,
    port: u16,
) -> Result<RosModel, (ErrorKind, Seq<char>)> {
    let full = node_name(namespace, name);
    if name.contains('/') {
        Err((ErrorKind::IllegalCharacter, name))
    } else if naming::node_fault(full) is Some {
        Err((naming::node_fault(full)->Some_0, full))
    } else {
        Ok(
            RosModel {
                master: MasterModel {
                    master_uri,
                    client_id: full,
                    caller_api: slave_uri(hostname, port),
                },
                slave: SlaveModel {
                    name: full,
                    uri: slave_uri(hostname, port),
                    master_uri,
                    hostname,
                    publications: Map::empty(),
                    publication_order: Seq::empty(),
                    subscriptions: Map::empty(),
                    subscription_order: Seq::empty(),
                    services: Map::empty(),
                    service_order: Seq::empty(),
                    running: true,
                },
                hostname,
                resolver: ResolverModel {
                    name: full,
                    namespace: naming::parent_of(full),
                    remaps: Map::empty(),
                },
                name: full,
            },
        )
    }
}

/// The resolver after the first `n` of the given remappings were recorded in
/// their order, or the name that the first failing one refused.
pub open spec fn remapped(m: ResolverModel, pairs: Seq<(Seq<char>, Seq<char>)>, n: int) -> Result<
    ResolverModel,
    (ErrorKind, Seq<char>),
>
    decreases n,
{
    if n <= 0 {
        Ok(m)
    } else {
        match remapped(m, pairs, n - 1) {
            Err(e) => Err(e),
            Ok(r) => naming::map_model(r, pairs[n - 1].0, pairs[n - 1].1),
        }
    }
}

/// The handle of a node that was made with the given remappings.
pub open spec fn started_with(
    master_uri: Seq<char>,
    hostname: Seq<char>,
    namespace: Seq<char>,
    name: Seq<char>,
    port: u16,
    pairs: Seq<(Seq<char>, Seq<char>)>,
) -> Result<RosModel, (ErrorKind, Seq<char>)> {
    match started(master_uri, hostname, namespace, name, port) {
        Err(e) => Err(e),
        Ok(m) => match remapped(m.resolver, pairs, pairs.len() as int) {
            Err(e) => Err(e),
            Ok(resolver) => Ok(RosModel { resolver, ..m }),
        },
    }
}

/// A call to the directory, and the absolute name that it is about.
#[derive(Clone, Debug, PartialEq, Eq)]
pub struct Request {
    pub name: String,
    pub call: Call,
}

/// Where a service is reached, and under which name the client calls.
#[derive(Clone, Debug, PartialEq, Eq)]
pub struct ClientAddress {
    pub caller_id: String,
    pub uri: String,
    pub service: String,
}

/// The handle of a node.
pub struct Ros {
    master: Master,
    slave: Slave,
    hostname: String,
    resolver: Resolver,
    name: String,
}

impl View for Ros {
    type V = RosModel;

    closed spec fn view(&self) -> RosModel {
        RosModel {
            master: self.master@,
            slave: self.slave@,
            hostname: self.hostname@,
            resolver: self.resolver@,
            name: self.name@,
        }
    }
}

fn trim(s: &str) -> (r: &str)
    ensures
        r@ == trimmed(s@),
{
    let mut end: usize = s.unicode_len();
    assert(s@.subrange(0, end as int) =~= s@);
    while end > 0 && s.get_char(end - 1) == '/'
        invariant
            end <= s@.len(),
            trimmed(s@) == trimmed(s@.subrange(0, end as int)),
        decreases end,
    {
        assert(s@.subrange(0, end as int).drop_last() =~= s@.subrange(0, end - 1));
        end -= 1;
    }
    s.substring_char(0, end)
}

impl Ros {
    /// The parts are well formed and speak of one node.
    pub closed spec fn wf(&self) -> bool {
        &&& self.resolver.wf()
        &&& self.slave.wf()
        &&& consistent(self@)
    }

    /// A well-formed handle is consistent.
    pub proof fn lemma_wf_consistent(&self)
        requires
            self.wf(),
        ensures
            consistent(self@),
    {
    }

    proof fn lemma_view(&self)
        ensures
            self@.master == self.master@,
            self@.slave == self.slave@,
            self@.hostname == self.hostname@,
            self@.resolver == self.resolver@,
            self@.name == self.name@,
    {
    }

    /// The handle of the node `name` in `namespace`, whose control server
    /// listens on `port` of `hostname`, in a graph whose directory is at
    /// `master_uri`.
    pub fn new_raw(master_uri: &str, hostname: &str, namespace: &str, name: &str, port: u16) -> (r:
        Result<Ros, Error>)
        ensures
            match r {
                Ok(ros) => ros.wf() && started(
                    master_uri@,
                    hostname@,
                    namespace@,
                    name@,
                    port,
                ) == Ok::<RosModel, (ErrorKind, Seq<char>)>(ros@),
                Err(Error::Naming(e)) => started(master_uri@, hostname@, namespace@, name@, port)
                    == Err::<RosModel, (ErrorKind, Seq<char>)>((e.kind, e.name@)),
                Err(_) => false,
            },
    {
        let namespace = trim(namespace);
        if find_char(name, '/').is_some() {
            return Err(
                Error::Naming(
                    naming::Error { kind: ErrorKind::IllegalCharacter, name: name.to_owned() },
                ),
            );
        }
        proof {
            reveal_strlit("/");
            assert("/"@ =~= seq!['/']);
        }
        let full = String::from_str(namespace).concat("/").concat(name);
        let resolver = match Resolver::new(full.as_str()) {
            Ok(r) => r,
            Err(e) => {
                return Err(Error::Naming(e));
            },
        };
        let slave = Slave::new(master_uri, hostname, port, full.as_str());
        let master = Master::new(master_uri, full.as_str(), slave.uri());
        proof {
            resolver.lemma_wf_valid();
            slave.lemma_wf_valid();
        }
        Ok(Ros { master, slave, hostname: hostname.to_owned(), resolver, name: full })
    }

    /// The handle of the node `name` with the given remappings, recorded in
    /// their order.
    pub fn new(
        name: &str,
        namespace: &str,
        master_uri: &str,
        hostname: &str,
        port: u16,
        mappings: &Vec<(String, String)>,
    ) -> (r: Result<Ros, Error>)
        ensures
            match r {
                Ok(ros) => ros.wf() && started_with(
                    master_uri@,
                    hostname@,
                    namespace@,
                    name@,
                    port,
                    pairs(mappings@),
                ) == Ok::<RosModel, (ErrorKind, Seq<char>)>(ros@),
                Err(Error::Naming(e)) => started_with(
                    master_uri@,
                    hostname@,
                    namespace@,
                    name@,
                    port,
                    pairs(mappings@),
                ) == Err::<RosModel, (ErrorKind, Seq<char>)>((e.kind, e.name@)),
                Err(_) => false,
            },
    {
        let mut ros = match Ros::new_raw(master_uri, hostname, namespace, name, port) {
            Ok(ros) => ros,
            Err(e) => {
                return Err(e);
            },
        };
        let ghost first = ros@;
        let ghost all = pairs(mappings@);
        let mut i: usize = 0;
        while i < mappings.len()
            invariant
                i <= mappings.len(),
                ros.wf(),
                all == pairs(mappings@),
                started(master_uri@, hostname@, namespace@, name@, port) == Ok::<
                    RosModel,
                    (ErrorKind, Seq<char>),
                >(first),
                remapped(first.resolver, all, i as int) == Ok::<
                    ResolverModel,
                    (ErrorKind, Seq<char>),
                >(ros@.resolver),
                ros@ == (RosModel { resolver: ros@.resolver, ..first }),
            decreases mappings.len() - i,
        {
            assert(all[i as int] == (mappings[i as int].0@, mappings[i as int].1@));
            match ros.map(mappings[i].0.as_str(), mappings[i].1.as_str()) {
                Ok(()) => {},
                Err(e) => {
                    proof {
                        assert(remapped(first.resolver, all, i + 1) is Err);
                        lemma_remapped_fails(first.resolver, all, i + 1, all.len() as int);
                    }
                    return Err(e);
                },
            }
            i += 1;
        }
        Ok(ros)
    }

    /// Records that `source` is to be replaced by `destination`.
    pub fn map(&mut self, source: &str, destination: &str) -> (r: Result<(), Error>)
        requires
            old(self).wf(),
        ensures
            match r {
                Ok(()) => {
                    &&& naming::map_model(old(self)@.resolver, source@, destination@) == Ok::<
                        ResolverModel,
                        (ErrorKind, Seq<char>),
                    >(final(self)@.resolver)
                    &&& final(self)@ == (RosModel {
                        resolver: final(self)@.resolver,
                        ..old(self)@
                    })
                },
                Err(Error::Naming(e)) => {
                    &&& final(self)@ == old(self)@
                    &&& naming::map_model(old(self)@.resolver, source@, destination@) == Err::<
                        ResolverModel,
                        (ErrorKind, Seq<char>),
                    >((e.kind, e.name@))
                },
                Err(_) => false,
            },
            final(self).wf(),
    {
        proof {
            self.lemma_view();
        }
        let r = self.resolver.map(source, destination);
        proof {
            self.lemma_view();
            self.resolver.lemma_wf_valid();
        }
        match r {
            Ok(()) => Ok(()),
            Err(e) => Err(Error::Naming(e)),
        }
    }

    /// The endpoint of the node's own control server.
    pub fn uri(&self) -> (r: &str)
        ensures
            r@ == self@.slave.uri,
    {
        self.slave.uri()
    }

    /// The node's absolute name.
    pub fn name(&self) -> (r: &str)
        ensures
            r@ == self@.name,
    {
        self.name.as_str()
    }

    /// The host under which the node is reached.
    pub fn hostname(&self) -> (r: &str)
        ensures
            r@ == self@.hostname,
    {
        self.hostname.as_str()
    }

    /// The node's local graph state.
    pub fn slave(&self) -> (r: &Slave)
        requires
            self.wf(),
        ensures
            r@ == self@.slave,
            r.wf(),
    {
        &self.slave
    }

    /// The node's directory client.
    pub fn master(&self) -> (r: &Master)
        ensures
            r@ == self@.master,
    {
        &self.master
    }

    /// The absolute name that `name` stands for.
    pub fn resolve(&self, name: &str) -> (r: Result<String, Error>)
        requires
            self.wf(),
        ensures
            match r {
                Ok(s) => naming::translate(self@.resolver, name@) == Ok::<Seq<char>, ErrorKind>(
                    s@,
                ),
                Err(Error::Naming(e)) => naming::translate(self@.resolver, name@) == Err::<
                    Seq<char>,
                    ErrorKind,
                >(e.kind) && e.name@ == name@,
                Err(_) => false,
            },
    {
        match self.resolver.translate(name) {
            Ok(s) => Ok(s),
            Err(e) => Err(Error::Naming(e)),
        }
    }

    /// The call that asks for the names of all parameters.
    pub fn parameters(&self) -> (r: Call)
        ensures
            r.is("getParamNames"@, seq![self@.master.client_id]),
    {
        self.master.get_param_names()
    }

    /// The call that asks for a snapshot of the graph.
    pub fn state(&self) -> (r: Call)
        ensures
            r.is("getSystemState"@, seq![self@.master.client_id]),
    {
        self.master.get_system_state()
    }

    /// The call that asks for the topics and the type of each.
    pub fn topics(&self) -> (r: Call)
        ensures
            r.is("getTopicTypes"@, seq![self@.master.client_id]),
    {
        self.master.get_topic_types()
    }
}

/// A parameter of the directory: its absolute name, and the client that
/// asks for it.
pub struct Parameter<'a> {
    master: &'a Master,
    name: String,
}

/// What the contracts say of a parameter handle.
pub struct ParameterModel {
    pub master: MasterModel,
    pub name: Seq<char>,
}

impl<'a> View for Parameter<'a> {
    type V = ParameterModel;

    closed spec fn view(&self) -> ParameterModel {
        ParameterModel { master: self.master@, name: self.name@ }
    }
}

impl<'a> Parameter<'a> {
    /// The absolute name of the parameter.
    pub fn name(&self) -> (r: &str)
        ensures
            r@ == self@.name,
    {
        self.name.as_str()
    }

    /// The call that asks for the value, to be read as a type of the
    /// caller's choice.
    pub fn get(&self) -> (r: Call)
        ensures
            r.is("getParam"@, seq![self@.master.client_id, self@.name]),
    {
        self.master.get_param(self.name.as_str())
    }

    /// The call that asks for the value as it is stored.
    pub fn get_raw(&self) -> (r: Call)
        ensures
            r.is("getParam"@, seq![self@.master.client_id, self@.name]),
    {
        self.master.get_param(self.name.as_str())
    }

    /// The call that sets the value. The value follows the arguments given
    /// here.
    pub fn set(&self) -> (r: Call)
        ensures
            r.is("setParam"@, seq![self@.master.client_id, self@.name]),
    {
        self.master.set_param(self.name.as_str())
    }

    /// The call that deletes the parameter.
    pub fn delete(&self) -> (r: Call)
        ensures
            r.is("deleteParam"@, seq![self@.master.client_id, self@.name]),
    {
        self.master.delete_param(self.name.as_str())
    }

    /// The call that asks whether the parameter is set.
    pub fn is_set(&self) -> (r: Call)
        ensures
            r.is("hasParam"@, seq![self@.master.client_id, self@.name]),
    {
        self.master.has_param(self.name.as_str())
    }

    /// The call that asks for the closest parameter of this name.
    pub fn search(&self) -> (r: Call)
        ensures
            r.is("searchParam"@, seq![self@.master.client_id, self@.name]),
    {
        self.master.search_param(self.name.as_str())
    }
}

/// How long to sleep between two lookups of a service, in milliseconds.
pub const POLL_MILLIS: u64 = 100;

/// What to do after a lookup of a service that is waited for.
#[derive(Clone, Debug, PartialEq, Eq)]
pub enum Poll {
    /// The service is there.
    Ready,
    /// Sleep for so many milliseconds, then look again.
    Retry(u64),
    /// Give up with this error.
    Failed(Error),
}

/// A wait for a service: the lookup to repeat, and the time allowed in
/// nanoseconds, if any.
#[derive(Clone, Debug, PartialEq, Eq)]
pub struct ServiceWait {
    pub call: Call,
    pub timeout: Option<u128>,
}

/// Whether an answer of the directory says that nobody offers the service.
pub open spec fn no_provider<T>(reply: Response<T>) -> bool {
    reply matches Err(ResponseError::Client(m)) && m@ == "no provider"@
}

impl ServiceWait {
    /// What to do after the lookup was answered by `reply`, `elapsed`
    /// nanoseconds after the wait began: the wait ends when the service is
    /// found and when the lookup fails for another reason than that nobody
    /// offers the service; while nobody does, it goes on unless the time
    /// allowed is exceeded.
    pub fn step<T>(&self, reply: Response<T>, elapsed: u128) -> (r: Poll)
        ensures
            match reply {
                Ok(_) => r is Ready,
                Err(e) => if no_provider(reply) {
                    if self.timeout is Some && elapsed > self.timeout->Some_0 {
                        r matches Poll::Failed(Error::Timeout)
                    } else {
                        r matches Poll::Retry(ms) && ms == POLL_MILLIS
                    }
                } else {
                    r matches Poll::Failed(Error::Response(got)) && got == e
                },
            },
    {
        match reply {
            Ok(_) => Poll::Ready,
            Err(e) => {
                let absent = match &e {
                    ResponseError::Client(m) => same_text(m.as_str(), "no provider"),
                    _ => false,
                };
                if absent {
                    match self.timeout {
                        Some(limit) => {
                            if elapsed > limit {
                                return Poll::Failed(Error::Timeout);
                            }
                        },
                        None => {},
                    }
                    Poll::Retry(POLL_MILLIS)
                } else {
                    Poll::Failed(Error::Response(e))
                }
            },
        }
    }
}

/// The handle with another local state.
pub open spec fn with_slave(m: RosModel, slave: SlaveModel) -> RosModel {
    RosModel { slave, ..m }
}

impl Ros {
    /// The handle of the parameter that `name` stands for; none where the
    /// name is refused.
    pub fn param<'a, 'b>(&'a self, name: &'b str) -> (r: Option<Parameter<'a>>)
        requires
            self.wf(),
        ensures
            match r {
                Some(p) => naming::translate(self@.resolver, name@) == Ok::<Seq<char>, ErrorKind>(
                    p@.name,
                ) && p@.master == self@.master,
                None => naming::translate(self@.resolver, name@) is Err,
            },
    {
        match self.resolver.translate(name) {
            Ok(v) => Some(Parameter { master: &self.master, name: v }),
            Err(_) => None,
        }
    }

    /// Begins to look for `service`: resolves the name and says how to ask
    /// the directory where the service is offered.
    pub fn client(&self, service: &str) -> (r: Result<Request, Error>)
        requires
            self.wf(),
        ensures
            match r {
                Ok(req) => {
                    &&& naming::translate(self@.resolver, service@) == Ok::<Seq<char>, ErrorKind>(
                        req.name@,
                    )
                    &&& req.call.is("lookupService"@, seq![self@.name, req.name@])
                },
                Err(Error::Naming(e)) => naming::translate(self@.resolver, service@) == Err::<
                    Seq<char>,
                    ErrorKind,
                >(e.kind) && e.name@ == service@,
                Err(_) => false,
            },
    {
        let name = match self.resolver.translate(service) {
            Ok(name) => name,
            Err(e) => {
                return Err(Error::Naming(e));
            },
        };
        let call = self.master.lookup_service(name.as_str());
        Ok(Request { name, call })
    }

    /// Reads the directory's answer to the lookup of the service `name`: the
    /// address of a client for it, or the directory's error.
    pub fn client_found(&self, name: &str, reply: Response<String>) -> (r: Result<
        ClientAddress,
        Error,
    >)
        ensures
            match reply {
                Ok(uri) => r matches Ok(a) && a.caller_id@ == self@.name && a.uri == uri
                    && a.service@ == name@,
                Err(e) => r matches Err(Error::Response(got)) && got == e,
            },
    {
        match reply {
            Ok(uri) => Ok(
                ClientAddress { caller_id: self.name.clone(), uri, service: name.to_owned() },
            ),
            Err(e) => Err(Error::Response(e)),
        }
    }

    /// Begins to wait for `service`: resolves the name and says which lookup
    /// to repeat. `timeout` is the time allowed, in nanoseconds.
    pub fn wait_for_service(&self, service: &str, timeout: Option<u128>) -> (r: Result<
        ServiceWait,
        Error,
    >)
        requires
            self.wf(),
        ensures
            match r {
                Ok(wait) => {
                    &&& naming::translate(self@.resolver, service@) is Ok
                    &&& wait.call.is(
                        "lookupService"@,
                        seq![self@.name, naming::translate(self@.resolver, service@)->Ok_0],
                    )
                    &&& wait.timeout == timeout
                },
                Err(Error::Naming(e)) => naming::translate(self@.resolver, service@) == Err::<
                    Seq<char>,
                    ErrorKind,
                >(e.kind) && e.name@ == service@,
                Err(_) => false,
            },
    {
        match self.client(service) {
            Ok(req) => Ok(ServiceWait { call: req.call, timeout }),
            Err(e) => Err(e),
        }
    }

    /// Begins to advertise `topic`, whose listener is bound to `port`:
    /// resolves the name, notes the publication, and says how to register it
    /// with the directory.
    pub fn publish(&mut self, topic: &str, msg_type: &MessageType, port: u16) -> (r: Result<
        Request,
        Error,
    >)
        requires
            old(self).wf(),
        ensures
            match r {
                Ok(req) => {
                    &&& naming::translate(old(self)@.resolver, topic@) == Ok::<
                        Seq<char>,
                        ErrorKind,
                    >(req.name@)
                    &&& old(self)@.slave.running
                    &&& final(self)@ == with_slave(
                        old(self)@,
                        with_publication(old(self)@.slave, req.name@, msg_type@, port),
                    )
                    &&& req.call.is(
                        "registerPublisher"@,
                        seq![old(self)@.name, req.name@, msg_type@.msg_type, old(self)@.slave.uri],
                    )
                },
                Err(Error::Naming(e)) => {
                    &&& naming::translate(old(self)@.resolver, topic@) == Err::<
                        Seq<char>,
                        ErrorKind,
                    >(e.kind)
                    &&& e.name@ == topic@
                    &&& final(self)@ == old(self)@
                },
                Err(Error::Shutdown) => {
                    &&& naming::translate(old(self)@.resolver, topic@) is Ok
                    &&& !old(self)@.slave.running
                    &&& final(self)@ == old(self)@
                },
                Err(_) => false,
            },
            final(self).wf(),
    {
        proof {
            self.lemma_view();
        }
        let name = match self.resolver.translate(topic) {
            Ok(name) => name,
            Err(e) => {
                return Err(Error::Naming(e));
            },
        };
        let added = self.slave.add_publication(name.as_str(), msg_type, port);
        proof {
            self.lemma_view();
            self.slave.lemma_wf_valid();
        }
        match added {
            Err(e) => Err(e),
            Ok(_) => {
                let call = self.master.register_publisher(
                    name.as_str(),
                    msg_type.msg_type.as_str(),
                );
                Ok(Request { name, call })
            },
        }
    }

    /// Reads the directory's answer to the registration of the publication
    /// of `name`: a success confirms the publication; an error takes it back
    /// and is handed on.
    pub fn publish_answered<T>(&mut self, name: &str, reply: Response<T>) -> (r: Result<(), Error>)
        requires
            old(self).wf(),
        ensures
            match reply {
                Ok(_) => r is Ok && final(self)@ == with_slave(
                    old(self)@,
                    publication_confirmed(old(self)@.slave, name@),
                ),
                Err(e) => {
                    &&& r matches Err(Error::Response(got)) && got == e
                    &&& final(self)@ == with_slave(
                        old(self)@,
                        without_publication(old(self)@.slave, name@),
                    )
                },
            },
            final(self).wf(),
    {
        proof {
            self.lemma_view();
        }
        match reply {
            Ok(_) => {
                self.slave.publication_registered(name);
                proof {
                    self.lemma_view();
                    self.slave.lemma_wf_valid();
                }
                Ok(())
            },
            Err(e) => {
                let _ = self.slave.remove_publication(name);
                proof {
                    self.lemma_view();
                    self.slave.lemma_wf_valid();
                }
                Err(Error::Response(e))
            },
        }
    }

    /// Begins to subscribe to `topic`: resolves the name, notes the
    /// subscription, and says how to register it with the directory.
    pub fn subscribe(&mut self, topic: &str, msg_type: &MessageType) -> (r: Result<Request, Error>)
        requires
            old(self).wf(),
        ensures
            match r {
                Ok(req) => {
                    &&& naming::translate(old(self)@.resolver, topic@) == Ok::<
                        Seq<char>,
                        ErrorKind,
                    >(req.name@)
                    &&& old(self)@.slave.running
                    &&& !old(self)@.slave.subscriptions.contains_key(req.name@)
                    &&& final(self)@ == with_slave(
                        old(self)@,
                        with_subscription(old(self)@.slave, req.name@, msg_type@),
                    )
                    &&& req.call.is(
                        "registerSubscriber"@,
                        seq![old(self)@.name, req.name@, msg_type@.msg_type, old(self)@.slave.uri],
                    )
                },
                Err(Error::Naming(e)) => {
                    &&& naming::translate(old(self)@.resolver, topic@) == Err::<
                        Seq<char>,
                        ErrorKind,
                    >(e.kind)
                    &&& e.name@ == topic@
                    &&& final(self)@ == old(self)@
                },
                Err(Error::Shutdown) => {
                    &&& naming::translate(old(self)@.resolver, topic@) is Ok
                    &&& !old(self)@.slave.running
                    &&& final(self)@ == old(self)@
                },
                Err(Error::Duplicate(what)) => {
                    &&& naming::translate(old(self)@.resolver, topic@) is Ok
                    &&& old(self)@.slave.running
                    &&& old(self)@.slave.subscriptions.contains_key(
                        naming::translate(old(self)@.resolver, topic@)->Ok_0,
                    )
                    &&& what@ == "subscription"@
                    &&& final(self)@ == old(self)@
                },
                Err(_) => false,
            },
            final(self).wf(),
    {
        proof {
            self.lemma_view();
        }
        let name = match self.resolver.translate(topic) {
            Ok(name) => name,
            Err(e) => {
                return Err(Error::Naming(e));
            },
        };
        let added = self.slave.add_subscription(name.as_str(), msg_type);
        proof {
            self.lemma_view();
            self.slave.lemma_wf_valid();
        }
        match added {
            Err(e) => Err(e),
            Ok(()) => {
                let call = self.master.register_subscriber(
                    name.as_str(),
                    msg_type.msg_type.as_str(),
                );
                Ok(Request { name, call })
            },
        }
    }

    /// Reads the directory's answer to the registration of the subscription
    /// to `name`. A success confirms the subscription, adds the publishers
    /// that the directory lists, and hands back those to connect to. An error
    /// takes the subscription back and is handed on.
    pub fn subscribe_answered(&mut self, name: &str, reply: Response<Vec<String>>) -> (r: Result<
        Vec<String>,
        Error,
    >)
        requires
            old(self).wf(),
        ensures
            match reply {
                Ok(publishers) => {
                    let confirmed = subscription_confirmed(old(self)@.slave, name@);
                    &&& r matches Ok(connect) && views(connect@) == new_publishers(
                        confirmed,
                        name@,
                        views(publishers@),
                    )
                    &&& final(self)@ == with_slave(
                        old(self)@,
                        with_report(
                            confirmed,
                            name@,
                            reported_with(confirmed, name@, views(publishers@)),
                            publishers_of(confirmed, name@) + new_publishers(
                                confirmed,
                                name@,
                                views(publishers@),
                            ),
                        ),
                    )
                },
                Err(e) => {
                    &&& r matches Err(Error::Response(got)) && got == e
                    &&& final(self)@ == with_slave(
                        old(self)@,
                        without_subscription(old(self)@.slave, name@),
                    )
                },
            },
            final(self).wf(),
    {
        proof {
            self.lemma_view();
        }
        match reply {
            Ok(publishers) => {
                self.slave.subscription_registered(name);
                let connect = self.slave.add_publishers_to_subscription(name, &publishers);
                proof {
                    self.lemma_view();
                    self.slave.lemma_wf_valid();
                }
                Ok(connect)
            },
            Err(e) => {
                let _ = self.slave.remove_subscription(name);
                proof {
                    self.lemma_view();
                    self.slave.lemma_wf_valid();
                }
                Err(Error::Response(e))
            },
        }
    }

    /// Begins to offer `service`, whose listener is bound to `port`:
    /// resolves the name, notes the offer, and says how to register it with
    /// the directory.
    pub fn service(&mut self, service: &str, port: u16) -> (r: Result<Request, Error>)
        requires
            old(self).wf(),
        ensures
            match r {
                Ok(req) => {
                    &&& naming::translate(old(self)@.resolver, service@) == Ok::<
                        Seq<char>,
                        ErrorKind,
                    >(req.name@)
                    &&& old(self)@.slave.running
                    &&& !old(self)@.slave.services.contains_key(req.name@)
                    &&& final(self)@ == with_slave(
                        old(self)@,
                        with_service(old(self)@.slave, req.name@, port),
                    )
                    &&& req.call.is(
                        "registerService"@,
                        seq![
                            old(self)@.name,
                            req.name@,
                            crate::api::slave::service_uri(old(self)@.hostname, port),
                            old(self)@.slave.uri,
                        ],
                    )
                },
                Err(Error::Naming(e)) => {
                    &&& naming::translate(old(self)@.resolver, service@) == Err::<
                        Seq<char>,
                        ErrorKind,
                    >(e.kind)
                    &&& e.name@ == service@
                    &&& final(self)@ == old(self)@
                },
                Err(Error::Shutdown) => {
                    &&& naming::translate(old(self)@.resolver, service@) is Ok
                    &&& !old(self)@.slave.running
                    &&& final(self)@ == old(self)@
                },
                Err(Error::Duplicate(what)) => {
                    &&& naming::translate(old(self)@.resolver, service@) is Ok
                    &&& old(self)@.slave.running
                    &&& old(self)@.slave.services.contains_key(
                        naming::translate(old(self)@.resolver, service@)->Ok_0,
                    )
                    &&& what@ == "service"@
                    &&& final(self)@ == old(self)@
                },
                Err(_) => false,
            },
            final(self).wf(),
    {
        proof {
            self.lemma_view();
        }
        let name = match self.resolver.translate(service) {
            Ok(name) => name,
            Err(e) => {
                return Err(Error::Naming(e));
            },
        };
        let added = self.slave.add_service(name.as_str(), port);
        proof {
            self.lemma_view();
            self.slave.lemma_wf_valid();
        }
        match added {
            Err(e) => Err(e),
            Ok(api) => {
                let call = self.master.register_service(name.as_str(), api.as_str());
                Ok(Request { name, call })
            },
        }
    }

    /// Reads the directory's answer to the registration of the service
    /// `name`: a success confirms the offer; an error takes it back and is
    /// handed on. Nothing is unregistered that was not registered.
    pub fn service_answered<T>(&mut self, name: &str, reply: Response<T>) -> (r: Result<(), Error>)
        requires
            old(self).wf(),
        ensures
            match reply {
                Ok(_) => r is Ok && final(self)@ == with_slave(
                    old(self)@,
                    service_confirmed(old(self)@.slave, name@),
                ),
                Err(e) => {
                    &&& r matches Err(Error::Response(got)) && got == e
                    &&& final(self)@ == with_slave(
                        old(self)@,
                        without_service(old(self)@.slave, name@),
                    )
                },
            },
            final(self).wf(),
    {
        proof {
            self.lemma_view();
        }
        match reply {
            Ok(_) => {
                self.slave.service_registered(name);
                proof {
                    self.lemma_view();
                    self.slave.lemma_wf_valid();
                }
                Ok(())
            },
            Err(e) => {
                let _ = self.slave.remove_service(name);
                proof {
                    self.lemma_view();
                    self.slave.lemma_wf_valid();
                }
                Err(Error::Response(e))
            },
        }
    }
}

impl Ros {
    /// Ends the publication of `name` and says how to take its registration
    /// back; nothing where the node does not publish `name`.
    pub fn unpublish(&mut self, name: &str) -> (r: Option<Call>)
        requires
            old(self).wf(),
        ensures
            final(self)@ == with_slave(old(self)@, without_publication(old(self)@.slave, name@)),
            match r {
                Some(call) => {
                    &&& old(self)@.slave.publications.contains_key(name@)
                    &&& call.is(
                        "unregisterPublisher"@,
                        seq![old(self)@.name, name@, old(self)@.slave.uri],
                    )
                },
                None => !old(self)@.slave.publications.contains_key(name@),
            },
            final(self).wf(),
    {
        proof {
            self.lemma_view();
        }
        let known = self.slave.publication_port(name).is_some();
        let _ = self.slave.remove_publication(name);
        proof {
            self.lemma_view();
            self.slave.lemma_wf_valid();
        }
        if known {
            Some(self.master.unregister_publisher(name))
        } else {
            None
        }
    }

    /// Ends the subscription to `name` and says how to take its registration
    /// back, and which connections to close.
    pub fn unsubscribe(&mut self, name: &str) -> (r: (Call, Vec<String>))
        requires
            old(self).wf(),
        ensures
            final(self)@ == with_slave(old(self)@, without_subscription(old(self)@.slave, name@)),
            r.0.is("unregisterSubscriber"@, seq![old(self)@.name, name@, old(self)@.slave.uri]),
            views(r.1@) == publishers_of(old(self)@.slave, name@),
            final(self).wf(),
    {
        proof {
            self.lemma_view();
        }
        let close = self.slave.remove_subscription(name);
        proof {
            self.lemma_view();
            self.slave.lemma_wf_valid();
        }
        (self.master.unregister_subscriber(name), close)
    }

    /// Takes in the directory's notice that the publishers of `topic` are now
    /// `uris`, and says which connections that asks for.
    pub fn publisher_update(&mut self, topic: &str, uris: &Vec<String>) -> (r: Update)
        requires
            old(self).wf(),
        ensures
            views(r.connect@) == new_publishers(old(self)@.slave, topic@, views(uris@)),
            views(r.close@) == lost_publishers(old(self)@.slave, topic@, views(uris@)),
            final(self)@ == with_slave(
                old(self)@,
                with_report(
                    old(self)@.slave,
                    topic@,
                    crate::text::distinct(views(uris@), uris@.len() as int),
                    crate::text::distinct(views(uris@), uris@.len() as int),
                ),
            ),
            final(self).wf(),
    {
        proof {
            self.lemma_view();
        }
        let r = self.slave.publisher_update(topic, uris);
        proof {
            self.lemma_view();
            self.slave.lemma_wf_valid();
        }
        r
    }

    /// Shuts the node down and says what that takes, in order: every
    /// registration is taken back before any socket is closed. A second
    /// shutdown asks for nothing.
    pub fn shutdown(&mut self) -> (r: Vec<Action>)
        requires
            old(self).wf(),
        ensures
            actions(r@) == shutdown_plan(old(self)@.slave),
            final(self)@ == with_slave(old(self)@, stopped(old(self)@.slave)),
            final(self).wf(),
    {
        proof {
            self.lemma_view();
        }
        let r = self.slave.shutdown();
        proof {
            self.lemma_view();
            self.slave.lemma_wf_valid();
        }
        r
    }
}

impl Ros {
    /// Answers a call that the directory or a peer makes on the node. `pid`
    /// is the number of the node's process.
    pub fn handle(&mut self, request: Inbound, pid: i32) -> (r: Response<Outbound>)
        requires
            old(self).wf(),
        ensures
            handled(old(self)@.slave, request, pid, r, final(self)@.slave),
            final(self)@ == with_slave(old(self)@, final(self)@.slave),
            final(self).wf(),
    {
        proof {
            self.lemma_view();
        }
        let r = self.slave.handle(request, pid);
        proof {
            self.lemma_view();
            self.slave.lemma_wf_valid();
            lemma_handled_keeps(old(self)@.slave, request, pid, r, self@.slave);
        }
        r
    }

    /// Answers a subscriber that has connected for `topic` on the stream
    /// numbered `stream`.
    pub fn accept_subscriber(
        &mut self,
        topic: &str,
        request: &Vec<(String, String)>,
        stream: u64,
    ) -> (r: Result<Vec<(String, String)>, Vec<(String, String)>>)
        requires
            old(self).wf(),
        ensures
            accepted(old(self)@.slave, topic@, pairs(request@), stream, r, final(self)@.slave),
            final(self)@ == with_slave(old(self)@, final(self)@.slave),
            final(self).wf(),
    {
        proof {
            self.lemma_view();
        }
        let r = self.slave.accept_subscriber(topic, request, stream);
        proof {
            self.lemma_view();
            self.slave.lemma_wf_valid();
        }
        r
    }

    /// Notes that the stream numbered `stream` of the publication of `topic`
    /// has ended.
    pub fn stream_closed(&mut self, topic: &str, stream: u64)
        requires
            old(self).wf(),
        ensures
            final(self)@ == with_slave(
                old(self)@,
                without_stream(old(self)@.slave, topic@, stream),
            ),
            final(self).wf(),
    {
        proof {
            self.lemma_view();
        }
        self.slave.stream_closed(topic, stream);
        proof {
            self.lemma_view();
            self.slave.lemma_wf_valid();
        }
    }

    /// Notes that the connection to the publisher `uri` of `topic` has ended.
    pub fn drop_publisher(&mut self, topic: &str, uri: &str)
        requires
            old(self).wf(),
        ensures
            final(self)@ == with_slave(
                old(self)@,
                with_publishers(
                    old(self)@.slave,
                    topic@,
                    without(
                        publishers_of(old(self)@.slave, topic@),
                        seq![uri@],
                        publishers_of(old(self)@.slave, topic@).len() as int,
                    ),
                ),
            ),
            final(self).wf(),
    {
        proof {
            self.lemma_view();
        }
        self.slave.drop_publisher(topic, uri);
        proof {
            self.lemma_view();
            self.slave.lemma_wf_valid();
        }
    }

    /// The frame of `body` for every stream of the publication of `topic`.
    pub fn broadcast(&self, topic: &str, body: &[u8]) -> (r: Result<Vec<(u64, Vec<u8>)>, WireError>)
        requires
            self.wf(),
        ensures
            sent(self@.slave, topic@, body@, r),
    {
        proof {
            self.lemma_view();
        }
        self.slave.broadcast(topic, body)
    }
}

impl Ros {
    /// The header with which the node asks a publisher for `topic`; nothing
    /// without a subscription to the topic.
    pub fn subscriber_hello(&self, topic: &str, nodelay: bool) -> (r: Option<Vec<(String, String)>>)
        requires
            self.wf(),
        ensures
            match r {
                Some(fields) => {
                    &&& self@.slave.subscriptions.contains_key(topic@)
                    &&& pairs(fields@) == subscriber_header(
                        self@.name,
                        topic@,
                        self@.slave.subscriptions[topic@].msg_type,
                        nodelay,
                    )
                },
                None => !self@.slave.subscriptions.contains_key(topic@),
            },
    {
        proof {
            self.lemma_view();
        }
        self.slave.subscriber_hello(topic, nodelay)
    }

    /// Reads the header with which the publisher at `uri` has answered the
    /// node's request for `topic`. A publisher whose answer is not in order
    /// is dropped from the subscription, and the fault is handed on.
    pub fn publisher_answered(&mut self, topic: &str, uri: &str, answer: &Vec<(String, String)>) -> (r:
        Result<(), Error>)
        requires
            old(self).wf(),
        ensures
            match r {
                Ok(()) => {
                    &&& publisher_fault(old(self)@.slave, topic@, pairs(answer@)) is None
                    &&& final(self)@ == old(self)@
                },
                Err(Error::Protocol(f)) => {
                    &&& publisher_fault(old(self)@.slave, topic@, pairs(answer@)) == Some(f@)
                    &&& final(self)@ == with_slave(
                        old(self)@,
                        with_publishers(
                            old(self)@.slave,
                            topic@,
                            without(
                                publishers_of(old(self)@.slave, topic@),
                                seq![uri@],
                                publishers_of(old(self)@.slave, topic@).len() as int,
                            ),
                        ),
                    )
                },
                Err(_) => false,
            },
            final(self).wf(),
    {
        proof {
            self.lemma_view();
        }
        let r = self.slave.publisher_answered(topic, uri, answer);
        proof {
            self.lemma_view();
            self.slave.lemma_wf_valid();
        }
        match r {
            Ok(()) => Ok(()),
            Err(f) => Err(Error::Protocol(f)),
        }
    }
}

/// No inbound call changes who the node is.
pub proof fn lemma_handled_keeps(
    before: SlaveModel,
    request: Inbound,
    pid: i32,
    r: Response<Outbound>,
    after: SlaveModel,
)
    requires
        handled(before, request, pid, r, after),
    ensures
        after.name == before.name,
        after.uri == before.uri,
        after.hostname == before.hostname,
        after.master_uri == before.master_uri,
{
}

/// Once a remapping has failed, the failure stands whatever follows.
proof fn lemma_remapped_fails(m: ResolverModel, pairs: Seq<(Seq<char>, Seq<char>)>, n: int, k: int)
    requires
        0 <= n <= k,
        remapped(m, pairs, n) is Err,
    ensures
        remapped(m, pairs, k) == remapped(m, pairs, n),
    decreases k - n,
{
    if n < k {
        lemma_remapped_fails(m, pairs, n, k - 1);
    }
}

} // verus!
