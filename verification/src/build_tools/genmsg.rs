//! The text of the module that declares the generated message types.

use vstd::prelude::*;
use crate::text::{distinct, find_char, holds, join, join_lines, push_line, same_text, views};
use crate::build_tools::error::Error;

verus! {

/// One message type, with the pieces of Rust text that were rendered for it.
pub struct Message {
    pub package: String,
    pub name: String,
    /// Fingerprint of the type.
    pub md5sum: String,
    /// The full textual definition, dependencies included.
    pub definition: String,
    /// The declaration of the struct.
    pub struct_text: String,
    /// The constructor, as it stands inside the struct's `impl`.
    pub new_text: String,
    /// The constants that the type declares.
    pub const_text: String,
}

/// What the assembly reads of a message type.
pub struct MessageModel {
    pub package: Seq<char>,
    pub name: Seq<char>,
    pub md5sum: Seq<char>,
    pub definition: Seq<char>,
    pub struct_text: Seq<char>,
    pub new_text: Seq<char>,
    pub const_text: Seq<char>,
}

impl View for Message {
    type V = MessageModel;

    open spec fn view(&self) -> MessageModel {
        MessageModel {
            package: self.package@,
            name: self.name@,
            md5sum: self.md5sum@,
            definition: self.definition@,
            struct_text: self.struct_text@,
            new_text: self.new_text@,
            const_text: self.const_text@,
        }
    }
}

/// One service type. Its request and response are messages of their own.
pub struct Service {
    pub package: String,
    pub name: String,
    /// Fingerprint of the service.
    pub md5sum: String,
}

/// What the assembly reads of a service type.
pub struct ServiceModel {
    pub package: Seq<char>,
    pub name: Seq<char>,
    pub md5sum: Seq<char>,
}

impl View for Service {
    type V = ServiceModel;

    open spec fn view(&self) -> ServiceModel {
        ServiceModel { package: self.package@, name: self.name@, md5sum: self.md5sum@ }
    }
}

/// The message and service types that a module is assembled from. No two
/// messages share package and name, and no two services do.
pub struct MessageMap {
    messages: Vec<Message>,
    services: Vec<Service>,
}

/// The messages and the services of a map, each in the order of arrival.
pub struct MessageMapModel {
    pub messages: Seq<MessageModel>,
    pub services: Seq<ServiceModel>,
}

impl View for MessageMap {
    type V = MessageMapModel;

    closed spec fn view(&self) -> MessageMapModel {
        MessageMapModel {
            messages: self.messages@.map_values(|m: Message| m@),
            services: self.services@.map_values(|s: Service| s@),
        }
    }
}

/// No two messages and no two services of the map share package and name.
pub open spec fn distinct_keys(map: MessageMapModel) -> bool {
    &&& forall|i: int, j: int|
        0 <= i < j < map.messages.len() ==> !(map.messages[i].package == map.messages[j].package
            && map.messages[i].name == map.messages[j].name)
    &&& forall|i: int, j: int|
        0 <= i < j < map.services.len() ==> !(map.services[i].package == map.services[j].package
            && map.services[i].name == map.services[j].name)
}

impl MessageMap {
    /// The map is well formed when its keys are distinct.
    pub open spec fn wf(&self) -> bool {
        distinct_keys(self@)
    }

    /// A map without any type.
    pub fn new() -> (r: MessageMap)
        ensures
            r.wf(),
            r@.messages.len() == 0,
            r@.services.len() == 0,
    {
        MessageMap { messages: Vec::new(), services: Vec::new() }
    }

    /// Index of the message with the given package and name.
    pub fn find_message(&self, package: &str, name: &str) -> (r: Option<usize>)
        ensures
            match r {
                Some(i) => i < self@.messages.len() && self@.messages[i as int].package
                    == package@ && self@.messages[i as int].name == name@,
                None => forall|i: int|
                    0 <= i < self@.messages.len() ==> !(self@.messages[i].package == package@
                        && self@.messages[i].name == name@),
            },
    {
        let mut i: usize = 0;
        while i < self.messages.len()
            invariant
                i <= self.messages.len(),
                self@.messages.len() == self.messages.len(),
                forall|k: int|
                    0 <= k < i ==> !(self@.messages[k].package == package@
                        && self@.messages[k].name == name@),
            decreases self.messages.len() - i,
        {
            if same_text(self.messages[i].package.as_str(), package) && same_text(
                self.messages[i].name.as_str(),
                name,
            ) {
                return Some(i);
            }
            i += 1;
        }
        None
    }

    /// Index of the service with the given package and name.
    pub fn find_service(&self, package: &str, name: &str) -> (r: Option<usize>)
        ensures
            match r {
                Some(i) => i < self@.services.len() && self@.services[i as int].package
                    == package@ && self@.services[i as int].name == name@,
                None => forall|i: int|
                    0 <= i < self@.services.len() ==> !(self@.services[i].package == package@
                        && self@.services[i].name == name@),
            },
    {
        let mut i: usize = 0;
        while i < self.services.len()
            invariant
                i <= self.services.len(),
                self@.services.len() == self.services.len(),
                forall|k: int|
                    0 <= k < i ==> !(self@.services[k].package == package@
                        && self@.services[k].name == name@),
            decreases self.services.len() - i,
        {
            if same_text(self.services[i].package.as_str(), package) && same_text(
                self.services[i].name.as_str(),
                name,
            ) {
                return Some(i);
            }
            i += 1;
        }
        None
    }

    /// Puts a message into the map. One with the same package and name is
    /// replaced where it stands; a new one goes to the end.
    pub fn insert_message(&mut self, message: Message)
        requires
            old(self).wf(),
        ensures
            final(self).wf(),
            final(self)@.services == old(self)@.services,
            final(self)@.messages == insert_message_model(old(self)@.messages, message@),
    {
        let found = self.find_message(message.package.as_str(), message.name.as_str());
        let ghost before = self@.messages;
        proof {
            lemma_message_slot(before, message@, 0);
        }
        match found {
            Some(i) => {
                self.messages[i] = message;
                assert(self@.messages =~= before.update(i as int, message@));
            },
            None => {
                self.messages.push(message);
                assert(self@.messages =~= before.push(message@));
            },
        }
        assert(self@.services =~= old(self)@.services);
    }

    /// Puts a service into the map. One with the same package and name is
    /// replaced where it stands; a new one goes to the end.
    pub fn insert_service(&mut self, service: Service)
        requires
            old(self).wf(),
        ensures
            final(self).wf(),
            final(self)@.messages == old(self)@.messages,
            final(self)@.services == insert_service_model(old(self)@.services, service@),
    {
        let found = self.find_service(service.package.as_str(), service.name.as_str());
        let ghost before = self@.services;
        proof {
            lemma_service_slot(before, service@, 0);
        }
        match found {
            Some(i) => {
                self.services[i] = service;
                assert(self@.services =~= before.update(i as int, service@));
            },
            None => {
                self.services.push(service);
                assert(self@.services =~= before.push(service@));
            },
        }
        assert(self@.messages =~= old(self)@.messages);
    }
}

/// Place of the first message from `from` on that has the key of `m`; the
/// length of the list where there is none.
pub open spec fn message_slot(ms: Seq<MessageModel>, m: MessageModel, from: int) -> int
    decreases ms.len() - from,
{
    if from < 0 || from >= ms.len() {
        ms.len() as int
    } else if ms[from].package == m.package && ms[from].name == m.name {
        from
    } else {
        message_slot(ms, m, from + 1)
    }
}

/// The list after `m` was put into it.
pub open spec fn insert_message_model(ms: Seq<MessageModel>, m: MessageModel) -> Seq<
    MessageModel,
> {
    let at = message_slot(ms, m, 0);
    if at < ms.len() {
        ms.update(at, m)
    } else {
        ms.push(m)
    }
}

/// Place of the first service from `from` on that has the key of `s`; the
/// length of the list where there is none.
pub open spec fn service_slot(ss: Seq<ServiceModel>, s: ServiceModel, from: int) -> int
    decreases ss.len() - from,
{
    if from < 0 || from >= ss.len() {
        ss.len() as int
    } else if ss[from].package == s.package && ss[from].name == s.name {
        from
    } else {
        service_slot(ss, s, from + 1)
    }
}

/// The list after `s` was put into it.
pub open spec fn insert_service_model(ss: Seq<ServiceModel>, s: ServiceModel) -> Seq<
    ServiceModel,
> {
    let at = service_slot(ss, s, 0);
    if at < ss.len() {
        ss.update(at, s)
    } else {
        ss.push(s)
    }
}

proof fn lemma_message_slot(ms: Seq<MessageModel>, m: MessageModel, from: int)
    requires
        0 <= from <= ms.len(),
    ensures
        from <= message_slot(ms, m, from) <= ms.len(),
        message_slot(ms, m, from) < ms.len() ==> ms[message_slot(ms, m, from)].package
            == m.package && ms[message_slot(ms, m, from)].name == m.name,
        forall|k: int|
            from <= k < message_slot(ms, m, from) ==> !(ms[k].package == m.package && ms[k].name
                == m.name),
    decreases ms.len() - from,
{
    if from < ms.len() && !(ms[from].package == m.package && ms[from].name == m.name) {
        lemma_message_slot(ms, m, from + 1);
    }
}

proof fn lemma_service_slot(ss: Seq<ServiceModel>, s: ServiceModel, from: int)
    requires
        0 <= from <= ss.len(),
    ensures
        from <= service_slot(ss, s, from) <= ss.len(),
        service_slot(ss, s, from) < ss.len() ==> ss[service_slot(ss, s, from)].package
            == s.package && ss[service_slot(ss, s, from)].name == s.name,
        forall|k: int|
            from <= k < service_slot(ss, s, from) ==> !(ss[k].package == s.package && ss[k].name
                == s.name),
    decreases ss.len() - from,
{
    if from < ss.len() && !(ss[from].package == s.package && ss[from].name == s.name) {
        lemma_service_slot(ss, s, from + 1);
    }
}

/// The text that Rust's `Debug` writes for a string: the string between
/// double quotes, with the characters escaped that a string literal needs
/// escaped.
pub uninterp spec fn debug_quoted(s: Seq<char>) -> Seq<char>;

/// `format!` with `{:?}` on a string slice, which is `<str as Debug>::fmt` of
/// the standard library. The result is a function of the characters alone;
/// nothing more is claimed of it here.
#[verifier::external_body]
fn debug_quote(value: &str) -> (r: String)
    ensures
        r@ == debug_quoted(value@),
{
    format!("{:?}", value)
}

/// An associated function `name` that returns the string whose literal is
/// `quoted`.
pub open spec fn function_text(name: Seq<char>, quoted: Seq<char>) -> Seq<char> {
    "\n            fn "@ + name + "() -> ::std::string::String {\n                "@ + quoted
        + ".into()\n            }"@
}

/// Writes the associated function `name` around a string literal that is
/// already quoted.
pub fn function_around(name: &str, quoted: &str) -> (r: String)
    ensures
        r@ == function_text(name@, quoted@),
{
    String::from_str("\n            fn ").concat(name).concat(
        "() -> ::std::string::String {\n                ",
    ).concat(quoted).concat(".into()\n            }")
}

/// Writes the associated function `name` that returns `value`.
pub fn create_function(name: &str, value: &str) -> (r: String)
    ensures
        r@ == function_text(name@, debug_quoted(value@)),
{
    let quoted = debug_quote(value);
    function_around(name, quoted.as_str())
}

/// The lines that declare one message type.
pub open spec fn message_lines(m: MessageModel) -> Seq<Seq<char>> {
    seq![
        m.struct_text,
        "        impl ::rosrust::Message for "@ + m.name + " {"@,
        function_text("msg_definition"@, debug_quoted(m.definition)),
        function_text("md5sum"@, debug_quoted(m.md5sum)),
        function_text("msg_type"@, debug_quoted(m.package + "/"@ + m.name)),
        "        }"@,
        "        impl "@ + m.name + " {"@,
        m.new_text,
        "        }"@,
    ]
}

/// The lines that declare one service type.
pub open spec fn service_lines(s: ServiceModel) -> Seq<Seq<char>> {
    seq![
        "        #[allow(dead_code,non_camel_case_types,non_snake_case)]"@,
        "        #[derive(Serialize,Deserialize,Debug)]"@,
        "        pub struct "@ + s.name + " {}"@,
        "        impl ::rosrust::Message for "@ + s.name + " {"@,
        function_text("msg_definition"@, debug_quoted(""@)),
        function_text("md5sum"@, debug_quoted(s.md5sum)),
        function_text("msg_type"@, debug_quoted(s.package + "/"@ + s.name)),
        "        }"@,
        "        impl ::rosrust::Service for "@ + s.name + " {"@,
        "            type Request = "@ + s.name + "Req;"@,
        "            type Response = "@ + s.name + "Res;"@,
        "        }"@,
    ]
}

/// The declarations of those among the first `n` messages that belong to
/// `package`, in their order.
pub open spec fn message_block(ms: Seq<MessageModel>, package: Seq<char>, n: int) -> Seq<
    Seq<char>,
>
    decreases n,
{
    if n <= 0 {
        Seq::empty()
    } else if ms[n - 1].package == package {
        message_block(ms, package, n - 1) + message_lines(ms[n - 1])
    } else {
        message_block(ms, package, n - 1)
    }
}

/// The constants of those among the first `n` messages that belong to
/// `package`, in their order.
pub open spec fn const_block(ms: Seq<MessageModel>, package: Seq<char>, n: int) -> Seq<
    Seq<char>,
>
    decreases n,
{
    if n <= 0 {
        Seq::empty()
    } else if ms[n - 1].package == package {
        const_block(ms, package, n - 1).push(ms[n - 1].const_text)
    } else {
        const_block(ms, package, n - 1)
    }
}

/// The declarations of those among the first `n` services that belong to
/// `package`, in their order.
pub open spec fn service_block(ss: Seq<ServiceModel>, package: Seq<char>, n: int) -> Seq<
    Seq<char>,
>
    decreases n,
{
    if n <= 0 {
        Seq::empty()
    } else if ss[n - 1].package == package {
        service_block(ss, package, n - 1) + service_lines(ss[n - 1])
    } else {
        service_block(ss, package, n - 1)
    }
}

/// The module of one package.
pub open spec fn package_lines(map: MessageMapModel, package: Seq<char>) -> Seq<Seq<char>> {
    seq!["    pub mod "@ + package + " {"@] + message_block(
        map.messages,
        package,
        map.messages.len() as int,
    ) + seq!["        #[allow(non_snake_case)]"@, "        pub mod CONST {"@] + const_block(
        map.messages,
        package,
        map.messages.len() as int,
    ) + seq!["        }"@] + service_block(map.services, package, map.services.len() as int)
        + seq!["    }"@]
}

/// The package of every message, then of every service.
pub open spec fn package_of_each(map: MessageMapModel) -> Seq<Seq<char>> {
    map.messages.map_values(|m: MessageModel| m.package) + map.services.map_values(
        |s: ServiceModel| s.package,
    )
}

/// The packages of a map, each once, in the order in which they first occur.
pub open spec fn packages(map: MessageMapModel) -> Seq<Seq<char>> {
    distinct(package_of_each(map), package_of_each(map).len() as int)
}

/// The modules of the first `n` of the given packages.
pub open spec fn package_blocks(map: MessageMapModel, ps: Seq<Seq<char>>, n: int) -> Seq<
    Seq<char>,
>
    decreases n,
{
    if n <= 0 {
        Seq::empty()
    } else {
        package_blocks(map, ps, n - 1) + package_lines(map, ps[n - 1])
    }
}

/// The lines of the whole module.
pub open spec fn module_lines(map: MessageMapModel) -> Seq<Seq<char>> {
    seq!["#[macro_use]\nextern crate serde_derive;"@, "pub mod msg {"@] + package_blocks(
        map,
        packages(map),
        packages(map).len() as int,
    ) + seq!["}"@]
}

/// The text of the whole module.
pub open spec fn module_text(map: MessageMapModel) -> Seq<char> {
    join_lines(module_lines(map))
}

/// Whether `requested`, written `package/name`, names a message or a service
/// of the map.
pub open spec fn known(map: MessageMapModel, requested: Seq<char>) -> bool {
    ||| exists|i: int|
        0 <= i < map.messages.len() && !(#[trigger] map.messages[i]).package.contains('/')
            && requested == map.messages[i].package + seq!['/'] + map.messages[i].name
    ||| exists|i: int|
        0 <= i < map.services.len() && !(#[trigger] map.services[i]).package.contains('/')
            && requested == map.services[i].package + seq!['/'] + map.services[i].name
}

/// A text has one split at its first slash.
pub proof fn lemma_one_split(a: Seq<char>, b: Seq<char>, c: Seq<char>, d: Seq<char>)
    requires
        a + seq!['/'] + b == c + seq!['/'] + d,
        !a.contains('/'),
        !c.contains('/'),
    ensures
        a == c,
        b == d,
{
    let l = a + seq!['/'] + b;
    let r = c + seq!['/'] + d;
    if a.len() < c.len() {
        assert(l[a.len() as int] == '/');
        assert(r[a.len() as int] == c[a.len() as int]);
        assert(c.contains('/'));
    }
    if c.len() < a.len() {
        assert(r[c.len() as int] == '/');
        assert(l[c.len() as int] == a[c.len() as int]);
        assert(a.contains('/'));
    }
    assert(a =~= l.subrange(0, a.len() as int));
    assert(c =~= r.subrange(0, c.len() as int));
    assert(b =~= l.subrange(a.len() as int + 1, l.len() as int));
    assert(d =~= r.subrange(c.len() as int + 1, r.len() as int));
}

/// Splits `package/name` at its first slash.
pub fn string_into_pair<'a>(input: &'a str) -> (r: Result<(&'a str, &'a str), Error>)
    ensures
        match r {
            Ok((package, name)) => {
                &&& input@ == package@ + seq!['/'] + name@
                &&& !package@.contains('/')
            },
            Err(e) => {
                &&& !input@.contains('/')
                &&& e matches Error::BadMessageName(s) && s@ == input@
            },
        },
{
    match find_char(input, '/') {
        Some(i) => {
            let n: usize = input.unicode_len();
            let package = input.substring_char(0, i);
            let name = input.substring_char(i + 1, n);
            assert(input@ =~= package@ + seq!['/'] + name@);
            Ok((package, name))
        },
        None => Err(Error::BadMessageName(input.to_owned())),
    }
}

/// `package/name`.
fn full_name(package: &str, name: &str) -> (r: String)
    ensures
        r@ == package@ + "/"@ + name@,
{
    String::from_str(package).concat("/").concat(name)
}

/// `before`, `middle` and `after` in a row.
fn around(before: &str, middle: &str, after: &str) -> (r: String)
    ensures
        r@ == before@ + middle@ + after@,
{
    String::from_str(before).concat(middle).concat(after)
}

/// Appends the declaration of one message type.
fn push_message(out: &mut Vec<String>, m: &Message)
    ensures
        views(final(out)@) == views(old(out)@) + message_lines(m@),
{
    let name = m.name.as_str();
    push_line(out, m.struct_text.clone());
    push_line(out, around("        impl ::rosrust::Message for ", name, " {"));
    push_line(out, create_function("msg_definition", m.definition.as_str()));
    push_line(out, create_function("md5sum", m.md5sum.as_str()));
    push_line(out, create_function("msg_type", full_name(m.package.as_str(), name).as_str()));
    push_line(out, String::from_str("        }"));
    push_line(out, around("        impl ", name, " {"));
    push_line(out, m.new_text.clone());
    push_line(out, String::from_str("        }"));
    assert(views(out@) =~= views(old(out)@) + message_lines(m@));
}

/// Appends the declaration of one service type.
fn push_service(out: &mut Vec<String>, s: &Service)
    ensures
        views(final(out)@) == views(old(out)@) + service_lines(s@),
{
    let name = s.name.as_str();
    push_line(
        out,
        String::from_str("        #[allow(dead_code,non_camel_case_types,non_snake_case)]"),
    );
    push_line(out, String::from_str("        #[derive(Serialize,Deserialize,Debug)]"));
    push_line(out, around("        pub struct ", name, " {}"));
    push_line(out, around("        impl ::rosrust::Message for ", name, " {"));
    push_line(out, create_function("msg_definition", ""));
    push_line(out, create_function("md5sum", s.md5sum.as_str()));
    push_line(out, create_function("msg_type", full_name(s.package.as_str(), name).as_str()));
    push_line(out, String::from_str("        }"));
    push_line(out, around("        impl ::rosrust::Service for ", name, " {"));
    push_line(out, around("            type Request = ", name, "Req;"));
    push_line(out, around("            type Response = ", name, "Res;"));
    push_line(out, String::from_str("        }"));
    assert(views(out@) =~= views(old(out)@) + service_lines(s@));
}

impl MessageMap {
    /// The packages of the map, each once, in the order in which they first
    /// occur: among the messages, then among the services.
    pub fn packages(&self) -> (r: Vec<String>)
        ensures
            views(r@) == packages(self@),
    {
        let ghost all = package_of_each(self@);
        let mut found: Vec<String> = Vec::new();
        let mut i: usize = 0;
        assert(views(found@) =~= distinct(all, 0));
        while i < self.messages.len()
            invariant
                i <= self.messages.len(),
                all == package_of_each(self@),
                self@.messages.len() == self.messages.len(),
                views(found@) == distinct(all, i as int),
            decreases self.messages.len() - i,
        {
            assert(all[i as int] == self.messages[i as int].package@);
            if !holds(&found, self.messages[i].package.as_str()) {
                push_line(&mut found, self.messages[i].package.clone());
            }
            i += 1;
        }
        let mut j: usize = 0;
        while j < self.services.len()
            invariant
                j <= self.services.len(),
                all == package_of_each(self@),
                self@.messages.len() == self.messages.len(),
                self@.services.len() == self.services.len(),
                views(found@) == distinct(all, self.messages.len() + j),
            decreases self.services.len() - j,
        {
            assert(all[self.messages.len() + j] == self.services[j as int].package@);
            if !holds(&found, self.services[j].package.as_str()) {
                push_line(&mut found, self.services[j].package.clone());
            }
            j += 1;
        }
        found
    }

    /// Appends the module of one package.
    fn push_package(&self, out: &mut Vec<String>, package: &str)
        ensures
            views(final(out)@) == views(old(out)@) + package_lines(self@, package@),
    {
        let ghost start = views(out@);
        let ghost ms = self@.messages;
        let ghost ss = self@.services;
        push_line(out, around("    pub mod ", package, " {"));
        let ghost head = start + seq!["    pub mod "@ + package@ + " {"@];
        assert(views(out@) =~= head + message_block(ms, package@, 0));
        let mut i: usize = 0;
        while i < self.messages.len()
            invariant
                i <= self.messages.len(),
                ms == self@.messages,
                ms.len() == self.messages.len(),
                views(out@) == head + message_block(ms, package@, i as int),
            decreases self.messages.len() - i,
        {
            assert(ms[i as int] == self.messages[i as int]@);
            if same_text(self.messages[i].package.as_str(), package) {
                push_message(out, &self.messages[i]);
                assert(views(out@) =~= head + message_block(ms, package@, i + 1));
            }
            i += 1;
        }
        push_line(out, String::from_str("        #[allow(non_snake_case)]"));
        push_line(out, String::from_str("        pub mod CONST {"));
        let ghost mid = head + message_block(ms, package@, ms.len() as int) + seq![
            "        #[allow(non_snake_case)]"@,
            "        pub mod CONST {"@,
        ];
        assert(views(out@) =~= mid + const_block(ms, package@, 0));
        let mut j: usize = 0;
        while j < self.messages.len()
            invariant
                j <= self.messages.len(),
                ms == self@.messages,
                ms.len() == self.messages.len(),
                views(out@) == mid + const_block(ms, package@, j as int),
            decreases self.messages.len() - j,
        {
            assert(ms[j as int] == self.messages[j as int]@);
            if same_text(self.messages[j].package.as_str(), package) {
                push_line(out, self.messages[j].const_text.clone());
                assert(views(out@) =~= mid + const_block(ms, package@, j + 1));
            }
            j += 1;
        }
        push_line(out, String::from_str("        }"));
        let ghost low = mid + const_block(ms, package@, ms.len() as int) + seq!["        }"@];
        assert(views(out@) =~= low + service_block(ss, package@, 0));
        let mut k: usize = 0;
        while k < self.services.len()
            invariant
                k <= self.services.len(),
                ss == self@.services,
                ss.len() == self.services.len(),
                views(out@) == low + service_block(ss, package@, k as int),
            decreases self.services.len() - k,
        {
            assert(ss[k as int] == self.services[k as int]@);
            if same_text(self.services[k].package.as_str(), package) {
                push_service(out, &self.services[k]);
                assert(views(out@) =~= low + service_block(ss, package@, k + 1));
            }
            k += 1;
        }
        push_line(out, String::from_str("    }"));
        assert(views(out@) =~= start + package_lines(self@, package@));
    }

    /// The text of the module that declares every type of the map.
    pub fn module_text(&self) -> (r: String)
        ensures
            r@ == module_text(self@),
    {
        let mut out: Vec<String> = Vec::new();
        push_line(&mut out, String::from_str("#[macro_use]\nextern crate serde_derive;"));
        push_line(&mut out, String::from_str("pub mod msg {"));
        let names = self.packages();
        let ghost ps = packages(self@);
        let ghost head = seq!["#[macro_use]\nextern crate serde_derive;"@, "pub mod msg {"@];
        assert(views(out@) =~= head + package_blocks(self@, ps, 0));
        let mut i: usize = 0;
        while i < names.len()
            invariant
                i <= names.len(),
                views(names@) == ps,
                views(out@) == head + package_blocks(self@, ps, i as int),
            decreases names.len() - i,
        {
            assert(ps[i as int] == names[i as int]@);
            self.push_package(&mut out, names[i].as_str());
            assert(views(out@) =~= head + package_blocks(self@, ps, i + 1));
            i += 1;
        }
        push_line(&mut out, String::from_str("}"));
        assert(ps.len() == names.len());
        assert(views(out@) =~= module_lines(self@));
        join(&out)
    }

    /// Whether `requested`, written `package/name`, names a type of the map.
    pub fn knows(&self, package: &str, name: &str) -> (r: bool)
        requires
            !package@.contains('/'),
        ensures
            r == known(self@, package@ + seq!['/'] + name@),
    {
        let ghost requested = package@ + seq!['/'] + name@;
        let m = self.find_message(package, name);
        let s = self.find_service(package, name);
        proof {
            if m is Some {
                assert(self@.messages[m->0 as int].package == package@);
            }
            if s is Some {
                assert(self@.services[s->0 as int].package == package@);
            }
            if m is None && s is None && known(self@, requested) {
                if exists|i: int|
                    0 <= i < self@.messages.len() && !(
                    #[trigger] self@.messages[i]).package.contains('/') && requested
                        == self@.messages[i].package + seq!['/'] + self@.messages[i].name {
                    let i = choose|i: int|
                        0 <= i < self@.messages.len() && !(
                        #[trigger] self@.messages[i]).package.contains('/') && requested
                            == self@.messages[i].package + seq!['/'] + self@.messages[i].name;
                    lemma_one_split(
                        package@,
                        name@,
                        self@.messages[i].package,
                        self@.messages[i].name,
                    );
                } else {
                    let i = choose|i: int|
                        0 <= i < self@.services.len() && !(
                        #[trigger] self@.services[i]).package.contains('/') && requested
                            == self@.services[i].package + seq!['/'] + self@.services[i].name;
                    lemma_one_split(
                        package@,
                        name@,
                        self@.services[i].package,
                        self@.services[i].name,
                    );
                }
            }
        }
        m.is_some() || s.is_some()
    }
}


/// The text of the module that declares every type of `map`, once each of
/// `messages` is found to be written `package/name` and to name a type of the
/// map. The first name that is badly written is reported before any that is
/// unknown.
pub fn depend_on_messages(map: &MessageMap, messages: &[&str]) -> (r: Result<String, Error>)
    ensures
        match r {
            Ok(text) => {
                &&& forall|j: int| 0 <= j < messages@.len() ==> messages@[j]@.contains('/')
                &&& forall|j: int| 0 <= j < messages@.len() ==> known(map@, messages@[j]@)
                &&& text@ == module_text(map@)
            },
            Err(Error::BadMessageName(s)) => exists|i: int|
                {
                    &&& 0 <= i < messages@.len()
                    &&& s@ == messages@[i]@
                    &&& !messages@[i]@.contains('/')
                    &&& forall|j: int| 0 <= j < i ==> messages@[j]@.contains('/')
                },
            Err(Error::UnknownMessage(s)) => {
                &&& forall|j: int| 0 <= j < messages@.len() ==> messages@[j]@.contains('/')
                &&& exists|i: int|
                    {
                        &&& 0 <= i < messages@.len()
                        &&& s@ == messages@[i]@
                        &&& !known(map@, messages@[i]@)
                        &&& forall|j: int| 0 <= j < i ==> known(map@, messages@[j]@)
                    }
            },
        },
{
    let mut pairs: Vec<(&str, &str)> = Vec::new();
    let mut i: usize = 0;
    while i < messages.len()
        invariant
            i <= messages.len(),
            pairs.len() == i,
            forall|j: int| 0 <= j < i ==> messages@[j]@.contains('/'),
            forall|j: int|
                0 <= j < i ==> {
                    &&& messages@[j]@ == (#[trigger] pairs@[j]).0@ + seq!['/'] + pairs@[j].1@
                    &&& !pairs@[j].0@.contains('/')
                },
        decreases messages.len() - i,
    {
        match string_into_pair(messages[i]) {
            Ok(pair) => {
                assert(messages@[i as int]@[pair.0@.len() as int] == '/');
                pairs.push(pair);
            },
            Err(e) => {
                return Err(e);
            },
        }
        i += 1;
    }
    let mut k: usize = 0;
    while k < pairs.len()
        invariant
            k <= pairs.len(),
            pairs.len() == messages.len(),
            forall|j: int| 0 <= j < messages@.len() ==> messages@[j]@.contains('/'),
            forall|j: int|
                0 <= j < pairs.len() ==> {
                    &&& messages@[j]@ == (#[trigger] pairs@[j]).0@ + seq!['/'] + pairs@[j].1@
                    &&& !pairs@[j].0@.contains('/')
                },
            forall|j: int| 0 <= j < k ==> known(map@, messages@[j]@),
        decreases pairs.len() - k,
    {
        let pair = pairs[k];
        if !map.knows(pair.0, pair.1) {
            return Err(Error::UnknownMessage(messages[k].to_owned()));
        }
        k += 1;
    }
    Ok(map.module_text())
}

} // verus!
