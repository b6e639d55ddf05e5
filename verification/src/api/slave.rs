//! The node's local graph state: what it publishes, what it subscribes to
//! and which services it offers.

use vstd::prelude::*;
use crate::api::error::Error;
use crate::api::master::{Call, Master};
use crate::rosxmlrpc::{Response, ResponseError};
use crate::tcpros::error::WireError;
use crate::tcpros::frame::{encode_frame, fits, frame};
use crate::tcpros::handshake::{
    answer_fault, check_answer, error_header, publisher_answer, publisher_header, refusal,
    request_fault, subscriber_header, subscriber_request, Fault, FaultModel,
};
use crate::table::Table;
use crate::tcpros::descriptor::{MessageType, MessageTypeModel};
use crate::text::{
    absent, appended, copy, decimal, decimal_text, distinct, pairs, unique, views, without,
};

verus! {

/// A topic that the node publishes.
pub struct Publication {
    pub msg_type: MessageType,
    /// The port on which subscribers connect.
    pub port: u16,
    /// The subscriber streams that are connected, each under its number.
    pub streams: Vec<u64>,
    /// Whether the directory has confirmed the registration.
    pub registered: bool,
}

/// What the contracts say of a publication.
pub struct PublicationModel {
    pub msg_type: MessageTypeModel,
    pub port: u16,
    pub streams: Seq<u64>,
    pub registered: bool,
}

impl View for Publication {
    type V = PublicationModel;

    open spec fn view(&self) -> PublicationModel {
        PublicationModel {
            msg_type: self.msg_type@,
            port: self.port,
            streams: self.streams@,
            registered: self.registered,
        }
    }
}

/// A topic that the node subscribes to.
pub struct Subscription {
    pub msg_type: MessageType,
    /// The publishers that the node is connected to, by their endpoints.
    pub publishers: Vec<String>,
    /// The publishers that the directory last reported for the topic.
    pub reported: Vec<String>,
    /// Whether the directory has confirmed the registration.
    pub registered: bool,
}

/// What the contracts say of a subscription.
pub struct SubscriptionModel {
    pub msg_type: MessageTypeModel,
    pub publishers: Seq<Seq<char>>,
    pub reported: Seq<Seq<char>>,
    pub registered: bool,
}

impl View for Subscription {
    type V = SubscriptionModel;

    open spec fn view(&self) -> SubscriptionModel {
        SubscriptionModel {
            msg_type: self.msg_type@,
            publishers: views(self.publishers@),
            reported: views(self.reported@),
            registered: self.registered,
        }
    }
}

/// A service that the node offers.
pub struct Service {
    /// Where clients reach the service.
    pub api: String,
    pub port: u16,
    /// Whether the directory has confirmed the registration.
    pub registered: bool,
}

/// What the contracts say of a service offer.
pub struct ServiceModel {
    pub api: Seq<char>,
    pub port: u16,
    pub registered: bool,
}

impl View for Service {
    type V = ServiceModel;

    open spec fn view(&self) -> ServiceModel {
        ServiceModel { api: self.api@, port: self.port, registered: self.registered }
    }
}

/// The node's local graph state.
pub struct Slave {
    name: String,
    uri: String,
    master_uri: String,
    hostname: String,
    publications: Table<Publication>,
    subscriptions: Table<Subscription>,
    services: Table<Service>,
    running: bool,
}

/// What the contracts say of the node's state: who it is, its three tables,
/// the order in which the entries of each table came, and whether it runs.
pub struct SlaveModel {
    pub name: Seq<char>,
    pub uri: Seq<char>,
    pub master_uri: Seq<char>,
    pub hostname: Seq<char>,
    pub publications: Map<Seq<char>, PublicationModel>,
    pub publication_order: Seq<Seq<char>>,
    pub subscriptions: Map<Seq<char>, SubscriptionModel>,
    pub subscription_order: Seq<Seq<char>>,
    pub services: Map<Seq<char>, ServiceModel>,
    pub service_order: Seq<Seq<char>>,
    pub running: bool,
}

impl View for Slave {
    type V = SlaveModel;

    closed spec fn view(&self) -> SlaveModel {
        SlaveModel {
            name: self.name@,
            uri: self.uri@,
            master_uri: self.master_uri@,
            hostname: self.hostname@,
            publications: self.publications@,
            publication_order: self.publications.order(),
            subscriptions: self.subscriptions@,
            subscription_order: self.subscriptions.order(),
            services: self.services@,
            service_order: self.services.order(),
            running: self.running,
        }
    }
}

/// Each order lists the names of its table once each; no subscription is
/// connected to a publisher twice, and to none but those that the directory
/// last reported; no publication has a stream twice; and a node that was
/// shut down holds nothing.
pub open spec fn valid(m: SlaveModel) -> bool {
    &&& m.publication_order.no_duplicates()
    &&& forall|k: Seq<char>|
        #![trigger m.publication_order.contains(k)]
        #![trigger m.publications.contains_key(k)]
        m.publication_order.contains(k) <==> m.publications.contains_key(k)
    &&& m.subscription_order.no_duplicates()
    &&& forall|k: Seq<char>|
        #![trigger m.subscription_order.contains(k)]
        #![trigger m.subscriptions.contains_key(k)]
        m.subscription_order.contains(k) <==> m.subscriptions.contains_key(k)
    &&& m.service_order.no_duplicates()
    &&& forall|k: Seq<char>|
        #![trigger m.service_order.contains(k)]
        #![trigger m.services.contains_key(k)]
        m.service_order.contains(k) <==> m.services.contains_key(k)
    &&& forall|k: Seq<char>| #[trigger]
        m.subscriptions.contains_key(k) ==> m.subscriptions[k].publishers.no_duplicates()
    &&& forall|k: Seq<char>, x: Seq<char>|
        m.subscriptions.contains_key(k) && #[trigger] m.subscriptions[k].publishers.contains(x)
            ==> m.subscriptions[k].reported.contains(x)
    &&& forall|k: Seq<char>| #[trigger]
        m.publications.contains_key(k) ==> m.publications[k].streams.no_duplicates()
    &&& !m.running ==> m.publication_order.len() == 0 && m.subscription_order.len() == 0
        && m.service_order.len() == 0
}

/// The endpoint of the node's own control server.
pub open spec fn slave_uri(hostname: Seq<char>, port: u16) -> Seq<char> {
    "http://"@ + hostname + ":"@ + decimal_text(port as nat) + "/"@
}

/// The endpoint of a service.
pub open spec fn service_uri(hostname: Seq<char>, port: u16) -> Seq<char> {
    "rosrpc://"@ + hostname + ":"@ + decimal_text(port as nat)
}

/// The state after `topic` was added as a publication on `port`. A topic
/// that is published already stays as it is.
pub open spec fn with_publication(
    m: SlaveModel,
    topic: Seq<char>,
    msg_type: MessageTypeModel,
    port: u16,
) -> SlaveModel {
    if m.publications.contains_key(topic) {
        m
    } else {
        SlaveModel {
            publications: m.publications.insert(
                topic,
                PublicationModel { msg_type, port, streams: Seq::empty(), registered: false },
            ),
            publication_order: m.publication_order.push(topic),
            ..m
        }
    }
}

/// The state after the directory confirmed the publication of `topic`.
pub open spec fn publication_confirmed(m: SlaveModel, topic: Seq<char>) -> SlaveModel {
    if m.publications.contains_key(topic) {
        SlaveModel {
            publications: m.publications.insert(
                topic,
                PublicationModel { registered: true, ..m.publications[topic] },
            ),
            ..m
        }
    } else {
        m
    }
}

/// The state without the publication of `topic`.
pub open spec fn without_publication(m: SlaveModel, topic: Seq<char>) -> SlaveModel {
    SlaveModel {
        publications: m.publications.remove(topic),
        publication_order: m.publication_order.remove_value(topic),
        ..m
    }
}

/// The state after a subscription to `topic` was added.
pub open spec fn with_subscription(m: SlaveModel, topic: Seq<char>, msg_type: MessageTypeModel) -> SlaveModel {
    SlaveModel {
        subscriptions: m.subscriptions.insert(
            topic,
            SubscriptionModel {
                msg_type,
                publishers: Seq::empty(),
                reported: Seq::empty(),
                registered: false,
            },
        ),
        subscription_order: m.subscription_order.push(topic),
        ..m
    }
}

/// The state after the directory confirmed the subscription to `topic`.
pub open spec fn subscription_confirmed(m: SlaveModel, topic: Seq<char>) -> SlaveModel {
    if m.subscriptions.contains_key(topic) {
        SlaveModel {
            subscriptions: m.subscriptions.insert(
                topic,
                SubscriptionModel { registered: true, ..m.subscriptions[topic] },
            ),
            ..m
        }
    } else {
        m
    }
}

/// The state in which the subscription to `topic` has the given publishers.
pub open spec fn with_publishers(
    m: SlaveModel,
    topic: Seq<char>,
    publishers: Seq<Seq<char>>,
) -> SlaveModel {
    if m.subscriptions.contains_key(topic) {
        SlaveModel {
            subscriptions: m.subscriptions.insert(
                topic,
                SubscriptionModel { publishers, ..m.subscriptions[topic] },
            ),
            ..m
        }
    } else {
        m
    }
}

/// The state in which the subscription to `topic` has the given publishers,
/// and the directory has reported the given ones.
pub open spec fn with_report(
    m: SlaveModel,
    topic: Seq<char>,
    reported: Seq<Seq<char>>,
    publishers: Seq<Seq<char>>,
) -> SlaveModel {
    if m.subscriptions.contains_key(topic) {
        SlaveModel {
            subscriptions: m.subscriptions.insert(
                topic,
                SubscriptionModel { publishers, reported, ..m.subscriptions[topic] },
            ),
            ..m
        }
    } else {
        m
    }
}

/// The publishers that the directory last reported for `topic`; none
/// without a subscription to it.
pub open spec fn reported_for(m: SlaveModel, topic: Seq<char>) -> Seq<Seq<char>> {
    if m.subscriptions.contains_key(topic) {
        m.subscriptions[topic].reported
    } else {
        Seq::empty()
    }
}

/// What the directory has reported for `topic` once `uris` are added to it.
pub open spec fn reported_with(m: SlaveModel, topic: Seq<char>, uris: Seq<Seq<char>>) -> Seq<
    Seq<char>,
> {
    let given = distinct(uris, uris.len() as int);
    reported_for(m, topic) + without(given, reported_for(m, topic), given.len() as int)
}

/// The publishers of the subscription to `topic`; none without one.
pub open spec fn publishers_of(m: SlaveModel, topic: Seq<char>) -> Seq<Seq<char>> {
    if m.subscriptions.contains_key(topic) {
        m.subscriptions[topic].publishers
    } else {
        Seq::empty()
    }
}

/// The publishers among `uris`, each once, that the subscription to `topic`
/// is not connected to.
pub open spec fn new_publishers(m: SlaveModel, topic: Seq<char>, uris: Seq<Seq<char>>) -> Seq<
    Seq<char>,
> {
    if m.subscriptions.contains_key(topic) {
        let given = distinct(uris, uris.len() as int);
        without(given, publishers_of(m, topic), given.len() as int)
    } else {
        Seq::empty()
    }
}

/// The publishers that the subscription to `topic` is connected to and that
/// are not among `uris`.
pub open spec fn lost_publishers(m: SlaveModel, topic: Seq<char>, uris: Seq<Seq<char>>) -> Seq<
    Seq<char>,
> {
    let before = publishers_of(m, topic);
    without(before, distinct(uris, uris.len() as int), before.len() as int)
}

/// The state without the subscription to `topic`.
pub open spec fn without_subscription(m: SlaveModel, topic: Seq<char>) -> SlaveModel {
    SlaveModel {
        subscriptions: m.subscriptions.remove(topic),
        subscription_order: m.subscription_order.remove_value(topic),
        ..m
    }
}

/// The state after `service` was added as an offer on `port`.
pub open spec fn with_service(m: SlaveModel, service: Seq<char>, port: u16) -> SlaveModel {
    SlaveModel {
        services: m.services.insert(
            service,
            ServiceModel { api: service_uri(m.hostname, port), port, registered: false },
        ),
        service_order: m.service_order.push(service),
        ..m
    }
}

/// The state after the directory confirmed the offer of `service`.
pub open spec fn service_confirmed(m: SlaveModel, service: Seq<char>) -> SlaveModel {
    if m.services.contains_key(service) {
        SlaveModel {
            services: m.services.insert(
                service,
                ServiceModel { registered: true, ..m.services[service] },
            ),
            ..m
        }
    } else {
        m
    }
}

/// The state without the offer of `service`.
pub open spec fn without_service(m: SlaveModel, service: Seq<char>) -> SlaveModel {
    SlaveModel {
        services: m.services.remove(service),
        service_order: m.service_order.remove_value(service),
        ..m
    }
}

/// The state in which the publication of `topic` has the stream `stream`.
pub open spec fn with_stream(m: SlaveModel, topic: Seq<char>, stream: u64) -> SlaveModel {
    if m.publications.contains_key(topic) && !m.publications[topic].streams.contains(stream) {
        SlaveModel {
            publications: m.publications.insert(
                topic,
                PublicationModel {
                    streams: m.publications[topic].streams.push(stream),
                    ..m.publications[topic]
                },
            ),
            ..m
        }
    } else {
        m
    }
}

/// The state in which the publication of `topic` has lost the stream
/// `stream`.
pub open spec fn without_stream(m: SlaveModel, topic: Seq<char>, stream: u64) -> SlaveModel {
    if m.publications.contains_key(topic) {
        SlaveModel {
            publications: m.publications.insert(
                topic,
                PublicationModel {
                    streams: m.publications[topic].streams.remove_value(stream),
                    ..m.publications[topic]
                },
            ),
            ..m
        }
    } else {
        m
    }
}

/// What is wrong where a publisher answers for a topic that the node does
/// not subscribe to.
pub open spec fn not_subscribed() -> FaultModel {
    FaultModel::Rejected("topic is not subscribed to by this node"@)
}

/// What is wrong with a publisher's answer to the node's request for
/// `topic`.
pub open spec fn publisher_fault(
    m: SlaveModel,
    topic: Seq<char>,
    answer: Seq<(Seq<char>, Seq<char>)>,
) -> Option<FaultModel> {
    if !m.subscriptions.contains_key(topic) {
        Some(not_subscribed())
    } else {
        answer_fault(answer, m.subscriptions[topic].msg_type)
    }
}

/// What a peer is told that asks for a topic that the node does not publish.
pub open spec fn not_published() -> FaultModel {
    FaultModel::Rejected("topic is not published by this node"@)
}

/// What is wrong with a subscriber's request for `topic`.
pub open spec fn subscriber_fault(
    m: SlaveModel,
    topic: Seq<char>,
    request: Seq<(Seq<char>, Seq<char>)>,
) -> Option<FaultModel> {
    if !m.publications.contains_key(topic) {
        Some(not_published())
    } else {
        request_fault(request, "topic"@, topic, m.publications[topic].msg_type)
    }
}

/// One step of what a node does for others to see.
#[derive(Clone, Debug, PartialEq, Eq)]
pub enum Action {
    /// Stop accepting calls on the node's control server.
    StopServer,
    /// Make this call to the directory.
    Directory(Call),
    /// Close the listener of this publication, on this port, and its streams.
    ClosePublication(String, u16),
    /// Close the connections of the subscription to this topic.
    CloseSubscription(String),
    /// Close the listener of this service, on this port.
    CloseService(String, u16),
    /// Wait for the workers to end.
    Drain,
}

/// An action with its texts.
pub enum ActionModel {
    StopServer,
    Directory(Seq<char>, Seq<Seq<char>>),
    ClosePublication(Seq<char>, u16),
    CloseSubscription(Seq<char>),
    CloseService(Seq<char>, u16),
    Drain,
}

impl View for Action {
    type V = ActionModel;

    open spec fn view(&self) -> ActionModel {
        match *self {
            Action::StopServer => ActionModel::StopServer,
            Action::Directory(c) => ActionModel::Directory(c.method@, views(c.args@)),
            Action::ClosePublication(t, p) => ActionModel::ClosePublication(t@, p),
            Action::CloseSubscription(t) => ActionModel::CloseSubscription(t@),
            Action::CloseService(n, p) => ActionModel::CloseService(n@, p),
            Action::Drain => ActionModel::Drain,
        }
    }
}

/// The models of a list of actions.
pub open spec fn actions(v: Seq<Action>) -> Seq<ActionModel> {
    v.map_values(|a: Action| a@)
}

/// The calls that take back the first `n` publications, then the first `k`
/// subscriptions, then the first `j` services, each table in its order.
pub open spec fn releases(m: SlaveModel, n: nat, k: nat, j: nat) -> Seq<ActionModel>
    decreases n + k + j,
{
    if j > 0 {
        let name = m.service_order[j - 1];
        releases(m, n, k, (j - 1) as nat).push(
            ActionModel::Directory(
                "unregisterService"@,
                seq![m.name, name, m.services[name].api],
            ),
        )
    } else if k > 0 {
        let name = m.subscription_order[k - 1];
        releases(m, n, (k - 1) as nat, 0).push(
            ActionModel::Directory("unregisterSubscriber"@, seq![m.name, name, m.uri]),
        )
    } else if n > 0 {
        let name = m.publication_order[n - 1];
        releases(m, (n - 1) as nat, 0, 0).push(
            ActionModel::Directory("unregisterPublisher"@, seq![m.name, name, m.uri]),
        )
    } else {
        Seq::empty()
    }
}

/// The steps that close the sockets of the first `n` publications, then of
/// the first `k` subscriptions, then of the first `j` services.
pub open spec fn closings(m: SlaveModel, n: nat, k: nat, j: nat) -> Seq<ActionModel>
    decreases n + k + j,
{
    if j > 0 {
        let name = m.service_order[j - 1];
        closings(m, n, k, (j - 1) as nat).push(ActionModel::CloseService(name, m.services[name].port))
    } else if k > 0 {
        closings(m, n, (k - 1) as nat, 0).push(ActionModel::CloseSubscription(m.subscription_order[k - 1]))
    } else if n > 0 {
        let name = m.publication_order[n - 1];
        closings(m, (n - 1) as nat, 0, 0).push(
            ActionModel::ClosePublication(name, m.publications[name].port),
        )
    } else {
        Seq::empty()
    }
}

/// What a shutdown does, in its order: it stops the control server, takes
/// back every registration, closes every socket, and waits for the workers.
/// A node that was shut down has nothing left to do.
pub open spec fn shutdown_plan(m: SlaveModel) -> Seq<ActionModel> {
    if !m.running {
        Seq::empty()
    } else {
        seq![ActionModel::StopServer] + releases(m, m.publication_order.len(), m.subscription_order.len(), m.service_order.len()) + closings(m, m.publication_order.len(), m.subscription_order.len(), m.service_order.len()) + seq![ActionModel::Drain]
    }
}

/// The state of a node after its shutdown.
pub open spec fn stopped(m: SlaveModel) -> SlaveModel {
    SlaveModel {
        publications: Map::empty(),
        publication_order: Seq::empty(),
        subscriptions: Map::empty(),
        subscription_order: Seq::empty(),
        services: Map::empty(),
        service_order: Seq::empty(),
        running: false,
        ..m
    }
}

/// Every release is a call to the directory.
pub proof fn lemma_releases(m: SlaveModel, n: nat, k: nat, j: nat)
    ensures
        releases(m, n, k, j).len() == n + k + j,
        forall|i: int|
            0 <= i < releases(m, n, k, j).len() ==> #[trigger] releases(m, n, k, j)[i]
                is Directory,
    decreases n + k + j,
{
    if j > 0 {
        lemma_releases(m, n, k, (j - 1) as nat);
    } else if k > 0 {
        lemma_releases(m, n, (k - 1) as nat, 0);
    } else if n > 0 {
        lemma_releases(m, (n - 1) as nat, 0, 0);
    }
}

/// No closing is a call to the directory.
pub proof fn lemma_closings(m: SlaveModel, n: nat, k: nat, j: nat)
    ensures
        closings(m, n, k, j).len() == n + k + j,
        forall|i: int|
            0 <= i < closings(m, n, k, j).len() ==> !(#[trigger] closings(m, n, k, j)[i]
                is Directory),
    decreases n + k + j,
{
    if j > 0 {
        lemma_closings(m, n, k, (j - 1) as nat);
    } else if k > 0 {
        lemma_closings(m, n, (k - 1) as nat, 0);
    } else if n > 0 {
        lemma_closings(m, (n - 1) as nat, 0, 0);
    }
}

/// In a shutdown every registration is taken back before any socket is
/// closed: each call to the directory comes before each closing.
pub proof fn lemma_release_before_close(m: SlaveModel, i: int, j: int)
    requires
        0 <= i < shutdown_plan(m).len(),
        0 <= j < shutdown_plan(m).len(),
        shutdown_plan(m)[i] is Directory,
        shutdown_plan(m)[j] is ClosePublication || shutdown_plan(m)[j] is CloseSubscription
            || shutdown_plan(m)[j] is CloseService,
    ensures
        i < j,
{
    let a = m.publication_order.len();
    let b = m.subscription_order.len();
    let c = m.service_order.len();
    lemma_releases(m, a, b, c);
    lemma_closings(m, a, b, c);
    let r = releases(m, a, b, c);
    let cl = closings(m, a, b, c);
    let plan = shutdown_plan(m);
    assert(plan.len() == 2 + 2 * (a + b + c));
    if i >= 1 + r.len() && i < 1 + r.len() + cl.len() {
        assert(plan[i] == cl[i - 1 - r.len()]);
    }
    if 1 <= j < 1 + r.len() {
        assert(plan[j] == r[j - 1]);
    }
}

/// The call that takes back the registration of the `i`-th publication.
pub open spec fn release_publication(m: SlaveModel, i: int) -> ActionModel {
    ActionModel::Directory(
        "unregisterPublisher"@,
        seq![m.name, m.publication_order[i], m.uri],
    )
}

/// The call that takes back the registration of the `i`-th subscription.
pub open spec fn release_subscription(m: SlaveModel, i: int) -> ActionModel {
    ActionModel::Directory(
        "unregisterSubscriber"@,
        seq![m.name, m.subscription_order[i], m.uri],
    )
}

/// The call that takes back the registration of the `i`-th service.
pub open spec fn release_service(m: SlaveModel, i: int) -> ActionModel {
    ActionModel::Directory(
        "unregisterService"@,
        seq![m.name, m.service_order[i], m.services[m.service_order[i]].api],
    )
}

/// The releases are those of the publications, then those of the
/// subscriptions, then those of the services, each in the order of its table.
pub proof fn lemma_release_at(m: SlaveModel, n: nat, k: nat, j: nat)
    ensures
        releases(m, n, k, j).len() == n + k + j,
        forall|i: int| 0 <= i < n ==> #[trigger] releases(m, n, k, j)[i] == release_publication(m, i),
        forall|i: int|
            0 <= i < k ==> #[trigger] releases(m, n, k, j)[n + i] == release_subscription(m, i),
        forall|i: int|
            0 <= i < j ==> #[trigger] releases(m, n, k, j)[n + k + i] == release_service(m, i),
    decreases n + k + j,
{
    if j > 0 {
        lemma_release_at(m, n, k, (j - 1) as nat);
        let before = releases(m, n, k, (j - 1) as nat);
        assert forall|i: int| 0 <= i < n implies #[trigger] releases(m, n, k, j)[i]
            == release_publication(m, i) by {
            assert(releases(m, n, k, j)[i] == before[i]);
        }
        assert forall|i: int| 0 <= i < k implies #[trigger] releases(m, n, k, j)[n + i]
            == release_subscription(m, i) by {
            assert(releases(m, n, k, j)[n + i] == before[n + i]);
        }
        assert forall|i: int| 0 <= i < j implies #[trigger] releases(m, n, k, j)[n + k + i]
            == release_service(m, i) by {
            if i < j - 1 {
                assert(releases(m, n, k, j)[n + k + i] == before[n + k + i]);
            }
        }
    } else if k > 0 {
        lemma_release_at(m, n, (k - 1) as nat, 0);
        let before = releases(m, n, (k - 1) as nat, 0);
        assert forall|i: int| 0 <= i < n implies #[trigger] releases(m, n, k, j)[i]
            == release_publication(m, i) by {
            assert(releases(m, n, k, j)[i] == before[i]);
        }
        assert forall|i: int| 0 <= i < k implies #[trigger] releases(m, n, k, j)[n + i]
            == release_subscription(m, i) by {
            if i < k - 1 {
                assert(releases(m, n, k, j)[n + i] == before[n + i]);
            }
        }
    } else if n > 0 {
        lemma_release_at(m, (n - 1) as nat, 0, 0);
        let before = releases(m, (n - 1) as nat, 0, 0);
        assert forall|i: int| 0 <= i < n implies #[trigger] releases(m, n, k, j)[i]
            == release_publication(m, i) by {
            if i < n - 1 {
                assert(releases(m, n, k, j)[i] == before[i]);
            }
        }
    }
}

/// A shutdown takes back the registration of everything that the node
/// holds: of every publication, every subscription and every service.
pub proof fn lemma_shutdown_releases_all(m: SlaveModel, name: Seq<char>)
    requires
        valid(m),
        m.running,
    ensures
        m.publications.contains_key(name) ==> shutdown_plan(m).contains(
            ActionModel::Directory("unregisterPublisher"@, seq![m.name, name, m.uri]),
        ),
        m.subscriptions.contains_key(name) ==> shutdown_plan(m).contains(
            ActionModel::Directory("unregisterSubscriber"@, seq![m.name, name, m.uri]),
        ),
        m.services.contains_key(name) ==> shutdown_plan(m).contains(
            ActionModel::Directory("unregisterService"@, seq![m.name, name, m.services[name].api]),
        ),
{
    let a = m.publication_order.len();
    let b = m.subscription_order.len();
    let c = m.service_order.len();
    lemma_release_at(m, a, b, c);
    lemma_closings(m, a, b, c);
    let plan = shutdown_plan(m);
    let r = releases(m, a, b, c);
    if m.publications.contains_key(name) {
        assert(m.publication_order.contains(name));
        let i = choose|i: int| 0 <= i < a && m.publication_order[i] == name;
        assert(r[i] == release_publication(m, i));
        assert(plan[1 + i] == r[i]);
    }
    if m.subscriptions.contains_key(name) {
        assert(m.subscription_order.contains(name));
        let i = choose|i: int| 0 <= i < b && m.subscription_order[i] == name;
        assert(r[a + i] == release_subscription(m, i));
        assert(plan[1 + a + i] == r[a + i]);
    }
    if m.services.contains_key(name) {
        assert(m.service_order.contains(name));
        let i = choose|i: int| 0 <= i < c && m.service_order[i] == name;
        assert(r[a + b + i] == release_service(m, i));
        assert(plan[1 + a + b + i] == r[a + b + i]);
    }
}

/// A second shutdown does nothing.
pub proof fn lemma_shutdown_once(m: SlaveModel)
    ensures
        shutdown_plan(stopped(m)).len() == 0,
        stopped(stopped(m)) == stopped(m),
{
}

/// A call that the directory or a peer makes on the node.
#[derive(Clone, Debug, PartialEq, Eq)]
pub enum Inbound {
    /// Asks for transport statistics.
    GetBusStats,
    /// Asks for the node's connections.
    GetBusInfo,
    /// Asks where the node's directory is.
    GetMasterUri,
    /// Asks the node to shut down, for the given reason.
    Shutdown(String),
    /// Asks for the number of the node's process.
    GetPid,
    /// Asks for the topics the node subscribes to.
    GetSubscriptions,
    /// Asks for the topics the node publishes.
    GetPublications,
    /// Tells that the parameter with this key has changed.
    ParamUpdate(String),
    /// Tells that the publishers of this topic are now these.
    PublisherUpdate(String, Vec<String>),
    /// Asks how to receive this topic, offering these protocols.
    RequestTopic(String, Vec<Vec<String>>),
}

/// What the node answers to a call, and what the answer asks of the code
/// that owns the sockets.
#[derive(Clone, Debug, PartialEq, Eq)]
pub enum Outbound {
    /// Nothing to report.
    Empty,
    /// A text.
    Text(String),
    /// A number.
    Number(i32),
    /// Topics, each with the name of its type.
    Topics(Vec<(String, String)>),
    /// The connections to open and to close.
    Connections(Update),
    /// The protocol, the host and the port on which a topic is received.
    Endpoint(String, String, i32),
    /// The steps of a shutdown.
    Steps(Vec<Action>),
}

/// What an inbound call does: the answer `r` and the state `after` that
/// follow from the state `before`. Statistics and connection lists are not
/// kept and the node watches no parameter: those calls succeed and change
/// nothing.
pub open spec fn handled(
    before: SlaveModel,
    request: Inbound,
    pid: i32,
    r: Response<Outbound>,
    after: SlaveModel,
) -> bool {
    match request {
        Inbound::GetBusStats | Inbound::GetBusInfo | Inbound::ParamUpdate(_) => {
            &&& r matches Ok(Outbound::Empty)
            &&& after == before
        },
        Inbound::GetMasterUri => {
            &&& r matches Ok(Outbound::Text(t)) && t@ == before.master_uri
            &&& after == before
        },
        Inbound::GetPid => {
            &&& r matches Ok(Outbound::Number(n)) && n == pid
            &&& after == before
        },
        Inbound::Shutdown(_) => {
            &&& r matches Ok(Outbound::Steps(steps)) && actions(steps@) == shutdown_plan(
                before,
            )
            &&& after == stopped(before)
        },
        Inbound::GetSubscriptions => {
            &&& r matches Ok(Outbound::Topics(list)) && list@.len()
                == before.subscription_order.len() && forall|i: int|
                0 <= i < list@.len() ==> {
                    &&& (#[trigger] list@[i]).0@ == before.subscription_order[i]
                    &&& list@[i].1@
                        == before.subscriptions[before.subscription_order[i]].msg_type.msg_type
                }
            &&& after == before
        },
        Inbound::GetPublications => {
            &&& r matches Ok(Outbound::Topics(list)) && list@.len()
                == before.publication_order.len() && forall|i: int|
                0 <= i < list@.len() ==> {
                    &&& (#[trigger] list@[i]).0@ == before.publication_order[i]
                    &&& list@[i].1@
                        == before.publications[before.publication_order[i]].msg_type.msg_type
                }
            &&& after == before
        },
        Inbound::PublisherUpdate(topic, uris) => {
            &&& r matches Ok(Outbound::Connections(u)) && views(u.connect@)
                == new_publishers(before, topic@, views(uris@)) && views(u.close@)
                == lost_publishers(before, topic@, views(uris@))
            &&& after == with_report(
                before,
                topic@,
                distinct(views(uris@), uris@.len() as int),
                distinct(views(uris@), uris@.len() as int),
            )
        },
        Inbound::RequestTopic(topic, protocols) => {
            &&& after == before
            &&& match r {
                Ok(Outbound::Endpoint(protocol, host, port)) => {
                    &&& before.publications.contains_key(topic@)
                    &&& offers_tcpros(protocols@)
                    &&& protocol@ == "TCPROS"@
                    &&& host@ == before.hostname
                    &&& port == before.publications[topic@].port
                },
                Err(ResponseError::Client(m)) => {
                    &&& !before.publications.contains_key(topic@)
                    &&& m@ == "Requested topic not published by node"@
                },
                Err(ResponseError::Server(m)) => {
                    &&& before.publications.contains_key(topic@)
                    &&& !offers_tcpros(protocols@)
                    &&& m@ == "No matching protocols available"@
                },
                _ => false,
            }
        },
    }
}

/// What the answer to a subscriber's request is, and what it does to the
/// state: where the request is in order the stream is noted and the
/// publisher's header is the answer; where it is not, the answer is the
/// header that refuses it, and nothing changes.
pub open spec fn accepted(
    before: SlaveModel,
    topic: Seq<char>,
    request: Seq<(Seq<char>, Seq<char>)>,
    stream: u64,
    r: Result<Vec<(String, String)>, Vec<(String, String)>>,
    after: SlaveModel,
) -> bool {
    match r {
        Ok(fields) => {
            &&& subscriber_fault(before, topic, request) is None
            &&& pairs(fields@) == publisher_header(
                before.name,
                before.publications[topic].msg_type,
                false,
            )
            &&& after == with_stream(before, topic, stream)
        },
        Err(fields) => {
            &&& subscriber_fault(before, topic, request) is Some
            &&& pairs(fields@) == error_header(subscriber_fault(before, topic, request)->Some_0)
            &&& after == before
        },
    }
}

/// What a broadcast of `body` on `topic` hands out: the frame of the body
/// for every stream of the publication, once each.
pub open spec fn sent(
    m: SlaveModel,
    topic: Seq<char>,
    body: Seq<u8>,
    r: Result<Vec<(u64, Vec<u8>)>, WireError>,
) -> bool {
    match r {
        Ok(out) => {
            &&& fits(body.len())
            &&& if m.publications.contains_key(topic) {
                &&& out@.len() == m.publications[topic].streams.len()
                &&& forall|i: int|
                    0 <= i < out@.len() ==> (#[trigger] out@[i]).0 == m.publications[topic].streams[i]
                        && out@[i].1@ == frame(body)
            } else {
                out@.len() == 0
            }
        },
        Err(e) => !fits(body.len()) && e == WireError::TooLong,
    }
}

/// What a change of the publishers of a topic asks for.
#[derive(Clone, Debug, PartialEq, Eq)]
pub struct Update {
    /// The publishers to connect to.
    pub connect: Vec<String>,
    /// The publishers whose connection is to be closed.
    pub close: Vec<String>,
}

/// Whether a list of protocols, each a name followed by its parameters,
/// offers the protocol named TCPROS.
pub open spec fn offers_tcpros(protocols: Seq<Vec<String>>) -> bool {
    exists|i: int|
        0 <= i < protocols.len() && (#[trigger] protocols[i]).len() > 0 && protocols[i][0]@
            == "TCPROS"@
}

fn copy_numbers(list: &Vec<u64>) -> (r: Vec<u64>)
    ensures
        r@ == list@,
{
    let mut out: Vec<u64> = Vec::new();
    let mut i: usize = 0;
    while i < list.len()
        invariant
            i <= list.len(),
            out@ == list@.take(i as int),
        decreases list.len() - i,
    {
        out.push(list[i]);
        assert(out@ =~= list@.take(i + 1));
        i += 1;
    }
    assert(list@.take(list@.len() as int) =~= list@);
    out
}

fn push_action(out: &mut Vec<Action>, a: Action)
    ensures
        actions(final(out)@) == actions(old(out)@).push(a@),
{
    out.push(a);
    assert(actions(out@) =~= actions(old(out)@).push(a@));
}

fn has_number(list: &Vec<u64>, x: u64) -> (r: bool)
    ensures
        r == list@.contains(x),
{
    let mut i: usize = 0;
    while i < list.len()
        invariant
            i <= list.len(),
            forall|k: int| 0 <= k < i ==> list@[k] != x,
        decreases list.len() - i,
    {
        if list[i] == x {
            return true;
        }
        i += 1;
    }
    false
}

/// Two lists without repeats that share nothing make one list without
/// repeats.
proof fn lemma_joined(a: Seq<Seq<char>>, b: Seq<Seq<char>>)
    requires
        a.no_duplicates(),
        b.no_duplicates(),
        forall|x: Seq<char>| b.contains(x) ==> !a.contains(x),
    ensures
        (a + b).no_duplicates(),
{
    let s = a + b;
    assert forall|i: int, j: int| 0 <= i < j < s.len() implies s[i] != s[j] by {
        if i < a.len() && j >= a.len() {
            assert(b.contains(b[j - a.len()]));
            assert(a.contains(a[i]));
        }
    }
}

impl Slave {
    /// The tables are in order and the model is valid.
    pub closed spec fn wf(&self) -> bool {
        &&& self.publications.wf()
        &&& self.subscriptions.wf()
        &&& self.services.wf()
        &&& valid(self@)
    }

    /// The parts of the model are the views of the parts of the state.
    proof fn lemma_view(&self)
        ensures
            self@.publications == self.publications@,
            self@.publication_order == self.publications.order(),
            self@.subscriptions == self.subscriptions@,
            self@.subscription_order == self.subscriptions.order(),
            self@.services == self.services@,
            self@.service_order == self.services.order(),
            self@.running == self.running,
            self@.hostname == self.hostname@,
    {
    }

    /// A well-formed node has a valid model.
    pub proof fn lemma_wf_valid(&self)
        requires
            self.wf(),
        ensures
            valid(self@),
    {
    }

    /// The state of a node named `name` whose control server listens on
    /// `port` of `hostname`, in a graph whose directory is at `master_uri`.
    pub fn new(master_uri: &str, hostname: &str, port: u16, name: &str) -> (r: Slave)
        ensures
            r.wf(),
            r@ == (SlaveModel {
                name: name@,
                uri: slave_uri(hostname@, port),
                master_uri: master_uri@,
                hostname: hostname@,
                publications: Map::empty(),
                publication_order: Seq::empty(),
                subscriptions: Map::empty(),
                subscription_order: Seq::empty(),
                services: Map::empty(),
                service_order: Seq::empty(),
                running: true,
            }),
    {
        let uri = String::from_str("http://").concat(hostname).concat(":").concat(
            decimal(port as u64).as_str(),
        ).concat("/");
        Slave {
            name: name.to_owned(),
            uri,
            master_uri: master_uri.to_owned(),
            hostname: hostname.to_owned(),
            publications: Table::new(),
            subscriptions: Table::new(),
            services: Table::new(),
            running: true,
        }
    }

    /// The endpoint of the node's own control server.
    pub fn uri(&self) -> (r: &str)
        ensures
            r@ == self@.uri,
    {
        self.uri.as_str()
    }

    /// The node's absolute name.
    pub fn name(&self) -> (r: &str)
        ensures
            r@ == self@.name,
    {
        self.name.as_str()
    }

    /// The endpoint of the directory that the node was made with.
    pub fn get_master_uri(&self) -> (r: &str)
        ensures
            r@ == self@.master_uri,
    {
        self.master_uri.as_str()
    }

    /// Whether the node has not been shut down.
    pub fn is_running(&self) -> (r: bool)
        ensures
            r == self@.running,
    {
        self.running
    }

    /// The port of the publication of `topic`, where the node publishes it.
    pub fn publication_port(&self, topic: &str) -> (r: Option<u16>)
        requires
            self.wf(),
        ensures
            match r {
                Some(p) => self@.publications.contains_key(topic@) && p
                    == self@.publications[topic@].port,
                None => !self@.publications.contains_key(topic@),
            },
    {
        match self.publications.get(topic) {
            Some(p) => Some(p.port),
            None => None,
        }
    }

    /// Starts publishing `topic` on `port`. Where the node publishes the topic
    /// already nothing changes, and the port of that publication is returned.
    pub fn add_publication(&mut self, topic: &str, msg_type: &MessageType, port: u16) -> (r:
        Result<u16, Error>)
        requires
            old(self).wf(),
        ensures
            match r {
                Err(e) => e is Shutdown && !old(self)@.running && final(self)@ == old(self)@,
                Ok(p) => {
                    &&& old(self)@.running
                    &&& final(self)@ == with_publication(old(self)@, topic@, msg_type@, port)
                    &&& final(self)@.publications.contains_key(topic@)
                    &&& p == final(self)@.publications[topic@].port
                },
            },
            final(self).wf(),
    {
        if !self.running {
            return Err(Error::Shutdown);
        }
        match self.publication_port(topic) {
            Some(p) => Ok(p),
            None => {
                proof {
                    self.lemma_view();
                    old(self).lemma_view();
                    self.publications.lemma_order();
                }
                self.publications.insert(
                    topic.to_owned(),
                    Publication {
                        msg_type: msg_type.copy(),
                        port,
                        streams: Vec::new(),
                        registered: false,
                    },
                );
                proof {
                    self.lemma_view();
                    old(self).lemma_view();
                    self.publications.lemma_order();
                }
                Ok(port)
            },
        }
    }

    /// Stops publishing `topic` and hands back the streams that are to be
    /// closed.
    pub fn remove_publication(&mut self, topic: &str) -> (r: Vec<u64>)
        requires
            old(self).wf(),
        ensures
            final(self)@ == without_publication(old(self)@, topic@),
            r@ == if old(self)@.publications.contains_key(topic@) {
                old(self)@.publications[topic@].streams
            } else {
                Seq::empty()
            },
            final(self).wf(),
    {
        let gone = self.publications.remove(topic);
        proof {
            self.lemma_view();
            old(self).lemma_view();
            self.publications.lemma_order();
            old(self)@.publication_order.index_of_first_ensures(topic@);
        }
        match gone {
            Some(p) => p.streams,
            None => Vec::new(),
        }
    }

    /// Notes that the directory has confirmed the publication of `topic`.
    pub fn publication_registered(&mut self, topic: &str)
        requires
            old(self).wf(),
        ensures
            final(self)@ == publication_confirmed(old(self)@, topic@),
            final(self).wf(),
    {
        let next = match self.publications.get(topic) {
            None => {
                return ;
            },
            Some(p) => Publication {
                msg_type: p.msg_type.copy(),
                port: p.port,
                streams: copy_numbers(&p.streams),
                registered: true,
            },
        };
        proof {
            self.lemma_view();
            old(self).lemma_view();
            self.publications.lemma_order();
        }
        self.publications.insert(topic.to_owned(), next);
        proof {
            self.lemma_view();
            old(self).lemma_view();
            self.publications.lemma_order();
        }
    }

    /// Starts a subscription to `topic`. The node can have one subscription
    /// to a topic.
    pub fn add_subscription(&mut self, topic: &str, msg_type: &MessageType) -> (r: Result<
        (),
        Error,
    >)
        requires
            old(self).wf(),
        ensures
            match r {
                Err(Error::Shutdown) => !old(self)@.running && final(self)@ == old(self)@,
                Err(Error::Duplicate(what)) => {
                    &&& old(self)@.running
                    &&& old(self)@.subscriptions.contains_key(topic@)
                    &&& what@ == "subscription"@
                    &&& final(self)@ == old(self)@
                },
                Err(_) => false,
                Ok(()) => {
                    &&& old(self)@.running
                    &&& !old(self)@.subscriptions.contains_key(topic@)
                    &&& final(self)@ == with_subscription(old(self)@, topic@, msg_type@)
                },
            },
            final(self).wf(),
    {
        if !self.running {
            return Err(Error::Shutdown);
        }
        if self.subscriptions.contains_key(topic) {
            return Err(Error::Duplicate(String::from_str("subscription")));
        }
        proof {
            self.lemma_view();
            old(self).lemma_view();
            self.subscriptions.lemma_order();
        }
        let fresh = Subscription {
            msg_type: msg_type.copy(),
            publishers: Vec::new(),
            reported: Vec::new(),
            registered: false,
        };
        assert(fresh@.publishers =~= Seq::empty());
        assert(fresh@.reported =~= Seq::empty());
        self.subscriptions.insert(topic.to_owned(), fresh);
        proof {
            self.lemma_view();
            old(self).lemma_view();
            self.subscriptions.lemma_order();
        }
        Ok(())
    }

    /// Notes that the directory has confirmed the subscription to `topic`.
    pub fn subscription_registered(&mut self, topic: &str)
        requires
            old(self).wf(),
        ensures
            final(self)@ == subscription_confirmed(old(self)@, topic@),
            final(self).wf(),
    {
        let next = match self.subscriptions.get(topic) {
            None => {
                return ;
            },
            Some(s) => Subscription {
                msg_type: s.msg_type.copy(),
                publishers: copy(&s.publishers),
                reported: copy(&s.reported),
                registered: true,
            },
        };
        proof {
            self.lemma_view();
            old(self).lemma_view();
            self.subscriptions.lemma_order();
        }
        self.subscriptions.insert(topic.to_owned(), next);
        proof {
            self.lemma_view();
            old(self).lemma_view();
            self.subscriptions.lemma_order();
        }
    }

    /// Ends the subscription to `topic` and hands back the publishers whose
    /// connection is to be closed.
    pub fn remove_subscription(&mut self, topic: &str) -> (r: Vec<String>)
        requires
            old(self).wf(),
        ensures
            final(self)@ == without_subscription(old(self)@, topic@),
            views(r@) == publishers_of(old(self)@, topic@),
            final(self).wf(),
    {
        let gone = self.subscriptions.remove(topic);
        proof {
            self.lemma_view();
            old(self).lemma_view();
            self.subscriptions.lemma_order();
            old(self)@.subscription_order.index_of_first_ensures(topic@);
        }
        match gone {
            Some(s) => s.publishers,
            None => {
                let none: Vec<String> = Vec::new();
                assert(views(none@) =~= Seq::empty());
                none
            },
        }
    }

    /// Adds publishers to the subscription to `topic` and hands back those
    /// that the node is not connected to yet, each once: they are to be
    /// connected to. Without a subscription to the topic nothing changes.
    pub fn add_publishers_to_subscription(&mut self, topic: &str, uris: &Vec<String>) -> (r: Vec<
        String,
    >)
        requires
            old(self).wf(),
        ensures
            views(r@) == new_publishers(old(self)@, topic@, views(uris@)),
            final(self)@ == with_report(
                old(self)@,
                topic@,
                reported_with(old(self)@, topic@, views(uris@)),
                publishers_of(old(self)@, topic@) + views(r@),
            ),
            final(self).wf(),
    {
        let (next, fresh) = match self.subscriptions.get(topic) {
            None => {
                return Vec::new();
            },
            Some(s) => {
                let given = unique(uris);
                let fresh = absent(&given, &s.publishers);
                let all = appended(&s.publishers, &fresh);
                let news = absent(&given, &s.reported);
                let reported = appended(&s.reported, &news);
                proof {
                    self.lemma_view();
                    let g = views(given@);
                    crate::text::lemma_distinct(views(uris@), uris@.len() as int);
                    crate::text::lemma_without(g, views(s.publishers@), g.len() as int);
                    crate::text::lemma_without(g, views(s.reported@), g.len() as int);
                    assert(g.take(g.len() as int) =~= g);
                    lemma_joined(views(s.publishers@), views(fresh@));
                    assert forall|x: Seq<char>| views(all@).contains(x) implies views(
                        reported@,
                    ).contains(x) by {
                        let i = choose|i: int| 0 <= i < views(all@).len() && views(all@)[i] == x;
                        if i < s.publishers@.len() {
                            assert(views(s.publishers@)[i] == x);
                            assert(views(s.publishers@).contains(x));
                            assert(s@.publishers.contains(x));
                            assert(views(s.reported@).contains(x));
                            let j = choose|j: int|
                                0 <= j < views(s.reported@).len() && views(s.reported@)[j] == x;
                            assert(views(reported@)[j] == x);
                        } else {
                            assert(views(fresh@)[i - s.publishers@.len()] == x);
                            assert(views(fresh@).contains(x));
                            assert(g.contains(x));
                            if views(s.reported@).contains(x) {
                                let j = choose|j: int|
                                    0 <= j < views(s.reported@).len() && views(s.reported@)[j]
                                        == x;
                                assert(views(reported@)[j] == x);
                            } else {
                                assert(views(news@).contains(x));
                                let j = choose|j: int|
                                    0 <= j < views(news@).len() && views(news@)[j] == x;
                                assert(views(reported@)[s.reported@.len() + j] == x);
                            }
                        }
                    }
                }
                (
                    Subscription {
                        msg_type: s.msg_type.copy(),
                        publishers: all,
                        reported,
                        registered: s.registered,
                    },
                    fresh,
                )
            },
        };
        proof {
            self.lemma_view();
            old(self).lemma_view();
            self.subscriptions.lemma_order();
        }
        self.subscriptions.insert(topic.to_owned(), next);
        proof {
            self.lemma_view();
            old(self).lemma_view();
            self.subscriptions.lemma_order();
        }
        fresh
    }

    /// Replaces the publishers of the subscription to `topic` by `uris` and
    /// says which connections that asks for: one to every publisher that is
    /// new, and the end of the one to every publisher that is gone. Without a
    /// subscription to the topic nothing changes.
    pub fn publisher_update(&mut self, topic: &str, uris: &Vec<String>) -> (r: Update)
        requires
            old(self).wf(),
        ensures
            views(r.connect@) == new_publishers(old(self)@, topic@, views(uris@)),
            views(r.close@) == lost_publishers(old(self)@, topic@, views(uris@)),
            final(self)@ == with_report(
                old(self)@,
                topic@,
                distinct(views(uris@), uris@.len() as int),
                distinct(views(uris@), uris@.len() as int),
            ),
            final(self).wf(),
    {
        let (next, update) = match self.subscriptions.get(topic) {
            None => {
                let close: Vec<String> = Vec::new();
                assert(views(close@) =~= Seq::empty());
                return Update { connect: Vec::new(), close };
            },
            Some(s) => {
                let given = unique(uris);
                let connect = absent(&given, &s.publishers);
                let close = absent(&s.publishers, &given);
                proof {
                    self.lemma_view();
                    crate::text::lemma_distinct(views(uris@), uris@.len() as int);
                }
                (
                    Subscription {
                        msg_type: s.msg_type.copy(),
                        publishers: copy(&given),
                        reported: given,
                        registered: s.registered,
                    },
                    Update { connect, close },
                )
            },
        };
        proof {
            self.lemma_view();
            old(self).lemma_view();
            self.subscriptions.lemma_order();
        }
        self.subscriptions.insert(topic.to_owned(), next);
        proof {
            self.lemma_view();
            old(self).lemma_view();
            self.subscriptions.lemma_order();
        }
        update
    }

    /// Notes that the connection to the publisher `uri` of `topic` has ended.
    pub fn drop_publisher(&mut self, topic: &str, uri: &str)
        requires
            old(self).wf(),
        ensures
            final(self)@ == with_publishers(
                old(self)@,
                topic@,
                without(
                    publishers_of(old(self)@, topic@),
                    seq![uri@],
                    publishers_of(old(self)@, topic@).len() as int,
                ),
            ),
            final(self).wf(),
    {
        let next = match self.subscriptions.get(topic) {
            None => {
                return ;
            },
            Some(s) => {
                let mut gone: Vec<String> = Vec::new();
                gone.push(uri.to_owned());
                assert(views(gone@) =~= seq![uri@]);
                let left = absent(&s.publishers, &gone);
                proof {
                    self.lemma_view();
                    crate::text::lemma_without(
                        views(s.publishers@),
                        seq![uri@],
                        s.publishers@.len() as int,
                    );
                }
                proof {
                    assert forall|x: Seq<char>| views(left@).contains(x) implies views(
                        s.reported@,
                    ).contains(x) by {
                        assert(views(s.publishers@).take(s.publishers@.len() as int) =~= views(
                            s.publishers@,
                        ));
                        assert(s@.publishers.contains(x));
                    }
                }
                Subscription {
                    msg_type: s.msg_type.copy(),
                    publishers: left,
                    reported: copy(&s.reported),
                    registered: s.registered,
                }
            },
        };
        proof {
            self.lemma_view();
            old(self).lemma_view();
            self.subscriptions.lemma_order();
        }
        self.subscriptions.insert(topic.to_owned(), next);
        proof {
            self.lemma_view();
            old(self).lemma_view();
            self.subscriptions.lemma_order();
        }
    }

    /// Starts offering `service` on `port` and says where clients reach it.
    /// The node can offer a service once.
    pub fn add_service(&mut self, service: &str, port: u16) -> (r: Result<String, Error>)
        requires
            old(self).wf(),
        ensures
            match r {
                Err(Error::Shutdown) => !old(self)@.running && final(self)@ == old(self)@,
                Err(Error::Duplicate(what)) => {
                    &&& old(self)@.running
                    &&& old(self)@.services.contains_key(service@)
                    &&& what@ == "service"@
                    &&& final(self)@ == old(self)@
                },
                Err(_) => false,
                Ok(api) => {
                    &&& old(self)@.running
                    &&& !old(self)@.services.contains_key(service@)
                    &&& api@ == service_uri(old(self)@.hostname, port)
                    &&& final(self)@ == with_service(old(self)@, service@, port)
                },
            },
            final(self).wf(),
    {
        if !self.running {
            return Err(Error::Shutdown);
        }
        if self.services.contains_key(service) {
            return Err(Error::Duplicate(String::from_str("service")));
        }
        proof {
            self.lemma_view();
            old(self).lemma_view();
            self.services.lemma_order();
        }
        let api = String::from_str("rosrpc://").concat(self.hostname.as_str()).concat(":").concat(
            decimal(port as u64).as_str(),
        );
        self.services.insert(
            service.to_owned(),
            Service { api: api.clone(), port, registered: false },
        );
        proof {
            self.lemma_view();
            old(self).lemma_view();
            self.services.lemma_order();
        }
        Ok(api)
    }

    /// Notes that the directory has confirmed the offer of `service`.
    pub fn service_registered(&mut self, service: &str)
        requires
            old(self).wf(),
        ensures
            final(self)@ == service_confirmed(old(self)@, service@),
            final(self).wf(),
    {
        let next = match self.services.get(service) {
            None => {
                return ;
            },
            Some(s) => Service { api: s.api.clone(), port: s.port, registered: true },
        };
        proof {
            self.lemma_view();
            old(self).lemma_view();
            self.services.lemma_order();
        }
        self.services.insert(service.to_owned(), next);
        proof {
            self.lemma_view();
            old(self).lemma_view();
            self.services.lemma_order();
        }
    }

    /// Stops offering `service` and hands back the port that is to be closed.
    pub fn remove_service(&mut self, service: &str) -> (r: Option<u16>)
        requires
            old(self).wf(),
        ensures
            final(self)@ == without_service(old(self)@, service@),
            r == if old(self)@.services.contains_key(service@) {
                Some(old(self)@.services[service@].port)
            } else {
                None
            },
            final(self).wf(),
    {
        let gone = self.services.remove(service);
        proof {
            self.lemma_view();
            old(self).lemma_view();
            self.services.lemma_order();
            old(self)@.service_order.index_of_first_ensures(service@);
        }
        match gone {
            Some(s) => Some(s.port),
            None => None,
        }
    }

    /// Answers a peer that asks how to receive `topic`: with the protocol,
    /// the host and the port, where the node publishes the topic and the peer
    /// offers TCPROS.
    pub fn request_topic(&self, topic: &str, protocols: &Vec<Vec<String>>) -> (r: Response<
        (String, String, i32),
    >)
        requires
            self.wf(),
        ensures
            match r {
                Ok((protocol, host, port)) => {
                    &&& self@.publications.contains_key(topic@)
                    &&& offers_tcpros(protocols@)
                    &&& protocol@ == "TCPROS"@
                    &&& host@ == self@.hostname
                    &&& port == self@.publications[topic@].port
                },
                Err(ResponseError::Client(m)) => {
                    &&& !self@.publications.contains_key(topic@)
                    &&& m@ == "Requested topic not published by node"@
                },
                Err(ResponseError::Server(m)) => {
                    &&& self@.publications.contains_key(topic@)
                    &&& !offers_tcpros(protocols@)
                    &&& m@ == "No matching protocols available"@
                },
                Err(ResponseError::Transport(_)) => false,
            },
    {
        let port = match self.publication_port(topic) {
            Some(p) => p,
            None => {
                return Err(
                    ResponseError::Client(
                        String::from_str("Requested topic not published by node"),
                    ),
                );
            },
        };
        let mut i: usize = 0;
        while i < protocols.len()
            invariant
                i <= protocols.len(),
                self@.publications.contains_key(topic@),
                port == self@.publications[topic@].port,
                forall|j: int|
                    0 <= j < i ==> !((#[trigger] protocols@[j]).len() > 0 && protocols@[j][0]@
                        == "TCPROS"@),
            decreases protocols.len() - i,
        {
            if protocols[i].len() > 0 && crate::text::same_text(
                protocols[i][0].as_str(),
                "TCPROS",
            ) {
                assert(protocols@[i as int].len() > 0 && protocols@[i as int][0]@ == "TCPROS"@);
                return Ok((String::from_str("TCPROS"), self.hostname.clone(), port as i32));
            }
            i += 1;
        }
        Err(ResponseError::Server(String::from_str("No matching protocols available")))
    }

    /// The topics that the node publishes, each with the name of its type, in
    /// the order in which they were added.
    pub fn get_publications(&self) -> (r: Vec<(String, String)>)
        requires
            self.wf(),
        ensures
            r@.len() == self@.publication_order.len(),
            forall|i: int|
                0 <= i < r@.len() ==> {
                    &&& (#[trigger] r@[i]).0@ == self@.publication_order[i]
                    &&& self@.publications.contains_key(self@.publication_order[i])
                    &&& r@[i].1@ == self@.publications[self@.publication_order[i]].msg_type.msg_type
                },
    {
        let mut out: Vec<(String, String)> = Vec::new();
        let mut i: usize = 0;
        while i < self.publications.len()
            invariant
                self.wf(),
                i <= self@.publication_order.len(),
                out@.len() == i,
                forall|k: int|
                    0 <= k < i ==> {
                        &&& (#[trigger] out@[k]).0@ == self@.publication_order[k]
                        &&& self@.publications.contains_key(self@.publication_order[k])
                        &&& out@[k].1@
                            == self@.publications[self@.publication_order[k]].msg_type.msg_type
                    },
            decreases self@.publication_order.len() - i,
        {
            let name = self.publications.name_at(i).clone();
            let kind = self.publications.value_at(i).msg_type.msg_type.clone();
            out.push((name, kind));
            i += 1;
        }
        out
    }

    /// The topics that the node subscribes to, each with the name of its
    /// type, in the order in which they were added.
    pub fn get_subscriptions(&self) -> (r: Vec<(String, String)>)
        requires
            self.wf(),
        ensures
            r@.len() == self@.subscription_order.len(),
            forall|i: int|
                0 <= i < r@.len() ==> {
                    &&& (#[trigger] r@[i]).0@ == self@.subscription_order[i]
                    &&& self@.subscriptions.contains_key(self@.subscription_order[i])
                    &&& r@[i].1@
                        == self@.subscriptions[self@.subscription_order[i]].msg_type.msg_type
                },
    {
        let mut out: Vec<(String, String)> = Vec::new();
        let mut i: usize = 0;
        while i < self.subscriptions.len()
            invariant
                self.wf(),
                i <= self@.subscription_order.len(),
                out@.len() == i,
                forall|k: int|
                    0 <= k < i ==> {
                        &&& (#[trigger] out@[k]).0@ == self@.subscription_order[k]
                        &&& self@.subscriptions.contains_key(self@.subscription_order[k])
                        &&& out@[k].1@
                            == self@.subscriptions[self@.subscription_order[k]].msg_type.msg_type
                    },
            decreases self@.subscription_order.len() - i,
        {
            let name = self.subscriptions.name_at(i).clone();
            let kind = self.subscriptions.value_at(i).msg_type.msg_type.clone();
            out.push((name, kind));
            i += 1;
        }
        out
    }

    /// Answers a subscriber that has connected for `topic` on the stream
    /// numbered `stream`. Where the request is in order the stream is noted
    /// and the publisher's header is the answer. Where it is not, the answer
    /// is the header that refuses it, and nothing changes: the publication
    /// stays open for others.
    pub fn accept_subscriber(
        &mut self,
        topic: &str,
        request: &Vec<(String, String)>,
        stream: u64,
    ) -> (r: Result<Vec<(String, String)>, Vec<(String, String)>>)
        requires
            old(self).wf(),
        ensures
            accepted(old(self)@, topic@, pairs(request@), stream, r, final(self)@),
            final(self).wf(),
    {
        proof {
            self.lemma_view();
        }
        let (next, answer) = match self.publications.get(topic) {
            None => {
                let f = Fault::Rejected(String::from_str("topic is not published by this node"));
                return Err(refusal(&f));
            },
            Some(p) => {
                let answer = match publisher_answer(
                    self.name.as_str(),
                    topic,
                    &p.msg_type,
                    false,
                    request,
                ) {
                    Err(fields) => {
                        return Err(fields);
                    },
                    Ok(fields) => fields,
                };
                let mut streams = copy_numbers(&p.streams);
                let known = has_number(&streams, stream);
                if known {
                    return Ok(answer);
                }
                streams.push(stream);
                assert(streams@.no_duplicates()) by {
                    assert(p@.streams.no_duplicates());
                }
                (
                    Publication {
                        msg_type: p.msg_type.copy(),
                        port: p.port,
                        streams,
                        registered: p.registered,
                    },
                    answer,
                )
            },
        };
        proof {
            self.lemma_view();
            old(self).lemma_view();
            self.publications.lemma_order();
        }
        self.publications.insert(topic.to_owned(), next);
        proof {
            self.lemma_view();
            old(self).lemma_view();
            self.publications.lemma_order();
        }
        Ok(answer)
    }

    /// Notes that the stream numbered `stream` of the publication of `topic`
    /// has ended.
    pub fn stream_closed(&mut self, topic: &str, stream: u64)
        requires
            old(self).wf(),
        ensures
            final(self)@ == without_stream(old(self)@, topic@, stream),
            final(self).wf(),
    {
        proof {
            self.lemma_view();
        }
        let next = match self.publications.get(topic) {
            None => {
                return ;
            },
            Some(p) => {
                let mut streams = copy_numbers(&p.streams);
                let mut i: usize = 0;
                proof {
                    streams@.index_of_first_ensures(stream);
                }
                while i < streams.len() && streams[i] != stream
                    invariant
                        i <= streams.len(),
                        forall|k: int| 0 <= k < i ==> streams@[k] != stream,
                    decreases streams.len() - i,
                {
                    i += 1;
                }
                if i < streams.len() {
                    let ghost before = streams@;
                    proof {
                        before.index_of_first_ensures(stream);
                        assert(before.no_duplicates());
                    }
                    streams.remove(i);
                    assert(streams@ =~= before.remove_value(stream));
                    assert(streams@.no_duplicates()) by {
                        assert forall|a: int, b: int|
                            0 <= a < b < streams@.len() implies streams@[a] != streams@[b] by {
                            let a0 = if a < i { a } else { a + 1 };
                            let b0 = if b < i { b } else { b + 1 };
                            assert(streams@[a] == before[a0]);
                            assert(streams@[b] == before[b0]);
                        }
                    }
                } else {
                    assert(!streams@.contains(stream));
                }
                Publication {
                    msg_type: p.msg_type.copy(),
                    port: p.port,
                    streams,
                    registered: p.registered,
                }
            },
        };
        proof {
            self.lemma_view();
            old(self).lemma_view();
            self.publications.lemma_order();
        }
        self.publications.insert(topic.to_owned(), next);
        proof {
            self.lemma_view();
            old(self).lemma_view();
            self.publications.lemma_order();
        }
    }

    /// The frame of `body` for every stream of the publication of `topic`:
    /// each connected subscriber gets the message once. Without a publication
    /// of the topic there is nobody to send to.
    pub fn broadcast(&self, topic: &str, body: &[u8]) -> (r: Result<Vec<(u64, Vec<u8>)>, WireError>)
        requires
            self.wf(),
        ensures
            sent(self@, topic@, body@, r),
    {
        proof {
            self.lemma_view();
        }
        let mut out: Vec<(u64, Vec<u8>)> = Vec::new();
        if body.len() > u32::MAX as usize {
            return Err(WireError::TooLong);
        }
        match self.publications.get(topic) {
            None => {},
            Some(p) => {
                let mut i: usize = 0;
                while i < p.streams.len()
                    invariant
                        i <= p.streams.len(),
                        fits(body@.len()),
                        out@.len() == i,
                        forall|k: int|
                            0 <= k < i ==> (#[trigger] out@[k]).0 == p.streams@[k] && out@[k].1@
                                == frame(body@),
                    decreases p.streams.len() - i,
                {
                    match encode_frame(body) {
                        Ok(bytes) => {
                            out.push((p.streams[i], bytes));
                        },
                        Err(e) => {
                            return Err(e);
                        },
                    }
                    i += 1;
                }
            },
        }
        Ok(out)
    }

    /// Shuts the node down and says what that takes, in order. A node that
    /// was shut down stays so, and a second shutdown asks for nothing.
    pub fn shutdown(&mut self) -> (r: Vec<Action>)
        requires
            old(self).wf(),
        ensures
            actions(r@) == shutdown_plan(old(self)@),
            final(self)@ == stopped(old(self)@),
            final(self).wf(),
    {
        proof {
            self.lemma_view();
            self.publications.lemma_order();
            self.subscriptions.lemma_order();
            self.services.lemma_order();
        }
        let mut out: Vec<Action> = Vec::new();
        if !self.running {
            assert(actions(out@) =~= shutdown_plan(self@));
            assert forall|k: Seq<char>| !self@.publications.contains_key(k) by {
                assert(!self@.publication_order.contains(k));
            }
            assert forall|k: Seq<char>| !self@.subscriptions.contains_key(k) by {
                assert(!self@.subscription_order.contains(k));
            }
            assert forall|k: Seq<char>| !self@.services.contains_key(k) by {
                assert(!self@.service_order.contains(k));
            }
            assert(self@.publications =~= Map::empty());
            assert(self@.subscriptions =~= Map::empty());
            assert(self@.services =~= Map::empty());
            assert(self@.publication_order =~= Seq::empty());
            assert(self@.subscription_order =~= Seq::empty());
            assert(self@.service_order =~= Seq::empty());
            return out;
        }
        let ghost m = self@;
        let master = Master::new(self.master_uri.as_str(), self.name.as_str(), self.uri.as_str());
        push_action(&mut out, Action::StopServer);
        let ghost head = seq![ActionModel::StopServer];
        let np: usize = self.publications.len();
        let ns: usize = self.subscriptions.len();
        let nv: usize = self.services.len();
        assert(actions(out@) =~= head + releases(m, 0, 0, 0));
        let mut i: usize = 0;
        while i < np
            invariant
                self.wf(),
                m == self@,
                np == m.publication_order.len(),
                i <= np,
                master@.client_id == m.name,
                master@.caller_api == m.uri,
                actions(out@) == head + releases(m, i as nat, 0, 0),
            decreases np - i,
        {
            proof {
                self.lemma_view();
            }
            let call = master.unregister_publisher(self.publications.name_at(i).as_str());
            push_action(&mut out, Action::Directory(call));
            assert(actions(out@) =~= head + releases(m, (i + 1) as nat, 0, 0));
            i += 1;
        }
        let mut k: usize = 0;
        while k < ns
            invariant
                self.wf(),
                m == self@,
                np == m.publication_order.len(),
                ns == m.subscription_order.len(),
                k <= ns,
                master@.client_id == m.name,
                master@.caller_api == m.uri,
                actions(out@) == head + releases(m, np as nat, k as nat, 0),
            decreases ns - k,
        {
            proof {
                self.lemma_view();
            }
            let call = master.unregister_subscriber(self.subscriptions.name_at(k).as_str());
            push_action(&mut out, Action::Directory(call));
            assert(actions(out@) =~= head + releases(m, np as nat, (k + 1) as nat, 0));
            k += 1;
        }
        let mut j: usize = 0;
        while j < nv
            invariant
                self.wf(),
                m == self@,
                np == m.publication_order.len(),
                ns == m.subscription_order.len(),
                nv == m.service_order.len(),
                j <= nv,
                master@.client_id == m.name,
                master@.caller_api == m.uri,
                actions(out@) == head + releases(m, np as nat, ns as nat, j as nat),
            decreases nv - j,
        {
            proof {
                self.lemma_view();
            }
            let call = master.unregister_service(
                self.services.name_at(j).as_str(),
                self.services.value_at(j).api.as_str(),
            );
            push_action(&mut out, Action::Directory(call));
            assert(actions(out@) =~= head + releases(m, np as nat, ns as nat, (j + 1) as nat));
            j += 1;
        }
        let ghost mid = head + releases(m, np as nat, ns as nat, nv as nat);
        assert(actions(out@) =~= mid + closings(m, 0, 0, 0));
        let mut i: usize = 0;
        while i < np
            invariant
                self.wf(),
                m == self@,
                np == m.publication_order.len(),
                i <= np,
                actions(out@) == mid + closings(m, i as nat, 0, 0),
            decreases np - i,
        {
            proof {
                self.lemma_view();
            }
            push_action(
                &mut out,
                Action::ClosePublication(
                    self.publications.name_at(i).clone(),
                    self.publications.value_at(i).port,
                ),
            );
            assert(actions(out@) =~= mid + closings(m, (i + 1) as nat, 0, 0));
            i += 1;
        }
        let mut k: usize = 0;
        while k < ns
            invariant
                self.wf(),
                m == self@,
                np == m.publication_order.len(),
                ns == m.subscription_order.len(),
                k <= ns,
                actions(out@) == mid + closings(m, np as nat, k as nat, 0),
            decreases ns - k,
        {
            proof {
                self.lemma_view();
            }
            push_action(
                &mut out,
                Action::CloseSubscription(self.subscriptions.name_at(k).clone()),
            );
            assert(actions(out@) =~= mid + closings(m, np as nat, (k + 1) as nat, 0));
            k += 1;
        }
        let mut j: usize = 0;
        while j < nv
            invariant
                self.wf(),
                m == self@,
                np == m.publication_order.len(),
                ns == m.subscription_order.len(),
                nv == m.service_order.len(),
                j <= nv,
                actions(out@) == mid + closings(m, np as nat, ns as nat, j as nat),
            decreases nv - j,
        {
            proof {
                self.lemma_view();
            }
            push_action(
                &mut out,
                Action::CloseService(
                    self.services.name_at(j).clone(),
                    self.services.value_at(j).port,
                ),
            );
            assert(actions(out@) =~= mid + closings(m, np as nat, ns as nat, (j + 1) as nat));
            j += 1;
        }
        push_action(&mut out, Action::Drain);
        assert(actions(out@) =~= shutdown_plan(m));
        self.publications = Table::new();
        self.subscriptions = Table::new();
        self.services = Table::new();
        self.running = false;
        proof {
            self.lemma_view();
            old(self).lemma_view();
        }
        out
    }

    /// Answers a call that the directory or a peer makes on the node. `pid`
    /// is the number of the node's process. Statistics and connection lists
    /// are not kept, and the node watches no parameter: those calls succeed
    /// and change nothing.
    pub fn handle(&mut self, request: Inbound, pid: i32) -> (r: Response<Outbound>)
        requires
            old(self).wf(),
        ensures
            handled(old(self)@, request, pid, r, final(self)@),
            final(self).wf(),
    {
        match request {
            Inbound::GetBusStats => Ok(Outbound::Empty),
            Inbound::GetBusInfo => Ok(Outbound::Empty),
            Inbound::ParamUpdate(_) => Ok(Outbound::Empty),
            Inbound::GetMasterUri => Ok(Outbound::Text(self.master_uri.clone())),
            Inbound::GetPid => Ok(Outbound::Number(pid)),
            Inbound::Shutdown(_) => Ok(Outbound::Steps(self.shutdown())),
            Inbound::GetSubscriptions => Ok(Outbound::Topics(self.get_subscriptions())),
            Inbound::GetPublications => Ok(Outbound::Topics(self.get_publications())),
            Inbound::PublisherUpdate(topic, uris) => Ok(
                Outbound::Connections(self.publisher_update(topic.as_str(), &uris)),
            ),
            Inbound::RequestTopic(topic, protocols) => match self.request_topic(
                topic.as_str(),
                &protocols,
            ) {
                Ok((protocol, host, port)) => Ok(Outbound::Endpoint(protocol, host, port)),
                Err(e) => Err(e),
            },
        }
    }

    /// The header with which the node asks a publisher for `topic`; nothing
    /// without a subscription to the topic.
    pub fn subscriber_hello(&self, topic: &str, nodelay: bool) -> (r: Option<Vec<(String, String)>>)
        requires
            self.wf(),
        ensures
            match r {
                Some(fields) => {
                    &&& self@.subscriptions.contains_key(topic@)
                    &&& pairs(fields@) == subscriber_header(
                        self@.name,
                        topic@,
                        self@.subscriptions[topic@].msg_type,
                        nodelay,
                    )
                },
                None => !self@.subscriptions.contains_key(topic@),
            },
    {
        proof {
            self.lemma_view();
        }
        match self.subscriptions.get(topic) {
            Some(s) => Some(subscriber_request(self.name.as_str(), topic, &s.msg_type, nodelay)),
            None => None,
        }
    }

    /// Reads the header with which the publisher at `uri` has answered the
    /// node's request for `topic`. An answer that is in order changes
    /// nothing. One that is not is reported, and the publisher is dropped
    /// from the subscription, which goes on.
    pub fn publisher_answered(&mut self, topic: &str, uri: &str, answer: &Vec<(String, String)>) -> (r:
        Result<(), Fault>)
        requires
            old(self).wf(),
        ensures
            match r {
                Ok(()) => {
                    &&& publisher_fault(old(self)@, topic@, pairs(answer@)) is None
                    &&& final(self)@ == old(self)@
                },
                Err(f) => {
                    &&& publisher_fault(old(self)@, topic@, pairs(answer@)) == Some(f@)
                    &&& final(self)@ == with_publishers(
                        old(self)@,
                        topic@,
                        without(
                            publishers_of(old(self)@, topic@),
                            seq![uri@],
                            publishers_of(old(self)@, topic@).len() as int,
                        ),
                    )
                },
            },
            final(self).wf(),
    {
        proof {
            self.lemma_view();
        }
        let checked = match self.subscriptions.get(topic) {
            None => Err(Fault::Rejected(String::from_str("topic is not subscribed to by this node"))),
            Some(s) => check_answer(answer, &s.msg_type),
        };
        match checked {
            Ok(()) => Ok(()),
            Err(f) => {
                self.drop_publisher(topic, uri);
                Err(f)
            },
        }
    }
}

} // verus!
