//! Graph names: what makes one well formed, how a relative or private name
//! is lifted to an absolute one, and how remappings are applied.

use vstd::prelude::*;

verus! {

/// What is wrong with a name.
#[derive(Clone, Copy, Debug, PartialEq, Eq, Structural)]
pub enum ErrorKind {
    /// The name, or one of its components, is empty.
    EmptyName,
    /// A component starts with something other than a letter.
    IllegalFirstCharacter,
    /// A component holds something other than letters, digits and `_`.
    IllegalCharacter,
    /// An absolute name was expected and the name does not start with `/`.
    LeadingSlashMissing,
}

/// A name that was refused, and why.
#[derive(Clone, Debug, PartialEq, Eq)]
pub struct Error {
    pub kind: ErrorKind,
    /// The name as the caller gave it.
    pub name: String,
}

/// A letter of the Latin alphabet.
pub open spec fn is_alpha(c: char) -> bool {
    ('A' as u32 <= c as u32 <= 'Z' as u32) || ('a' as u32 <= c as u32 <= 'z' as u32)
}

/// A character that may stand inside a component.
pub open spec fn is_legal(c: char) -> bool {
    is_alpha(c) || ('0' as u32 <= c as u32 <= '9' as u32) || c == '_'
}

/// What is wrong at position `i` of a name that is read as an absolute one:
/// a slash opens a component, which must start with a letter; every other
/// character must be legal inside a component.
pub open spec fn fault_at(s: Seq<char>, i: int) -> Option<ErrorKind> {
    if s[i] == '/' {
        if i + 1 >= s.len() || s[i + 1] == '/' {
            Some(ErrorKind::EmptyName)
        } else if !is_alpha(s[i + 1]) {
            Some(ErrorKind::IllegalFirstCharacter)
        } else {
            None
        }
    } else if !is_legal(s[i]) {
        Some(ErrorKind::IllegalCharacter)
    } else {
        None
    }
}

/// The first fault of `s` in reading order, from position `from` on.
pub open spec fn first_fault(s: Seq<char>, from: int) -> Option<ErrorKind>
    decreases s.len() - from,
{
    if from < 0 || from >= s.len() {
        None
    } else if fault_at(s, from) is Some {
        fault_at(s, from)
    } else {
        first_fault(s, from + 1)
    }
}

/// An absolute name in canonical form: empty (the root), or a row of
/// components, each one opened by a slash, non-empty, starting with a letter
/// and made of letters, digits and `_`.
pub open spec fn is_absolute(s: Seq<char>) -> bool {
    &&& s.len() > 0 ==> s[0] == '/'
    &&& forall|i: int| 0 <= i < s.len() ==> fault_at(s, i) is None
}

/// A name is free of faults from `from` on exactly when no position from
/// there on has one.
pub proof fn lemma_first_fault(s: Seq<char>, from: int)
    requires
        0 <= from,
    ensures
        first_fault(s, from) is None <==> forall|i: int|
            from <= i < s.len() ==> fault_at(s, i) is None,
    decreases s.len() - from,
{
    if from < s.len() {
        lemma_first_fault(s, from + 1);
        if fault_at(s, from) is None {
            assert forall|i: int| from <= i < s.len() && first_fault(s, from + 1)
                is None implies fault_at(s, i) is None by {
                if i > from {
                }
            }
        }
    }
}

/// Two absolute names in a row are an absolute name.
pub proof fn lemma_absolute_concat(a: Seq<char>, b: Seq<char>)
    requires
        is_absolute(a),
        is_absolute(b),
    ensures
        is_absolute(a + b),
{
    let s = a + b;
    assert forall|i: int| 0 <= i < s.len() implies fault_at(s, i) is None by {
        if i < a.len() {
            assert(fault_at(a, i) is None);
            assert(s[i] == a[i]);
            if i + 1 < a.len() {
                assert(s[i + 1] == a[i + 1]);
            }
        } else {
            assert(fault_at(b, i - a.len()) is None);
            assert(s[i] == b[i - a.len()]);
            if i + 1 < s.len() {
                assert(s[i + 1] == b[i + 1 - a.len()]);
            }
        }
    }
    if a.len() > 0 {
        assert(s[0] == a[0]);
    } else if b.len() > 0 {
        assert(s[0] == b[0]);
    }
}

fn letter(c: char) -> (r: bool)
    ensures
        r == is_alpha(c),
{
    let u: u32 = c as u32;
    (u >= 65 && u <= 90) || (u >= 97 && u <= 122)
}

fn legal(c: char) -> (r: bool)
    ensures
        r == is_legal(c),
{
    let u: u32 = c as u32;
    letter(c) || (u >= 48 && u <= 57) || c == '_'
}

/// Reads `s` as an absolute name and reports its first fault.
pub fn check(s: &str) -> (r: Result<(), ErrorKind>)
    ensures
        match r {
            Ok(()) => first_fault(s@, 0) is None,
            Err(k) => first_fault(s@, 0) == Some(k),
        },
{
    let n: usize = s.unicode_len();
    let mut i: usize = 0;
    while i < n
        invariant
            n == s@.len(),
            i <= n,
            first_fault(s@, 0) == first_fault(s@, i as int),
        decreases n - i,
    {
        let c = s.get_char(i);
        if c == '/' {
            if i + 1 >= n {
                return Err(ErrorKind::EmptyName);
            }
            let d = s.get_char(i + 1);
            if d == '/' {
                return Err(ErrorKind::EmptyName);
            }
            if !letter(d) {
                return Err(ErrorKind::IllegalFirstCharacter);
            }
        } else if !legal(c) {
            return Err(ErrorKind::IllegalCharacter);
        }
        i += 1;
    }
    Ok(())
}

/// A name without its last component: what stands before its last slash.
pub open spec fn parent_of(s: Seq<char>) -> Seq<char>
    decreases s.len(),
{
    if s.len() == 0 {
        s
    } else if s.last() == '/' {
        s.drop_last()
    } else {
        parent_of(s.drop_last())
    }
}

/// The parent of a name is a prefix of it, and the parent of an absolute name
/// is an absolute name.
pub proof fn lemma_parent(s: Seq<char>)
    ensures
        parent_of(s).len() <= s.len(),
        parent_of(s) == s.subrange(0, parent_of(s).len() as int),
        s.len() > 0 && s[0] == '/' ==> parent_of(s).len() < s.len() && s[parent_of(s).len() as int]
            == '/',
        is_absolute(s) ==> is_absolute(parent_of(s)),
    decreases s.len(),
{
    let p = parent_of(s);
    if s.len() == 0 {
        assert(p =~= s.subrange(0, 0));
    } else if s.last() == '/' {
        assert(p =~= s.subrange(0, p.len() as int));
    } else {
        let t = s.drop_last();
        lemma_parent(t);
        assert(p =~= s.subrange(0, p.len() as int));
        if s[0] == '/' {
            assert(t.len() > 0);
            assert(t[0] == '/');
        }
    }
    if is_absolute(s) && s.len() > 0 {
        assert forall|i: int| 0 <= i < p.len() implies fault_at(p, i) is None by {
            assert(fault_at(s, i) is None);
            assert(p[i] == s[i]);
            if i + 1 < p.len() {
                assert(p[i + 1] == s[i + 1]);
            }
        }
        if p.len() > 0 {
            assert(p[0] == s[0]);
        }
    }
}

/// The node's own name, its namespace, and the remappings.
pub struct ResolverModel {
    pub name: Seq<char>,
    pub namespace: Seq<char>,
    pub remaps: Map<Seq<char>, Seq<char>>,
}

/// The absolute name that `name` stands for, before any remapping: an
/// absolute name stands for itself, `~rest` for `rest` below the node's own
/// name, and any other name for itself below the node's namespace.
pub open spec fn resolve(m: ResolverModel, name: Seq<char>) -> Result<Seq<char>, ErrorKind> {
    if name.len() == 0 {
        Err(ErrorKind::EmptyName)
    } else if name[0] == '/' {
        match first_fault(name, 0) {
            Some(k) => Err(k),
            None => Ok(name),
        }
    } else if name[0] == '~' {
        let rest = seq!['/'] + name.subrange(1, name.len() as int);
        match first_fault(rest, 0) {
            Some(k) => Err(k),
            None => Ok(m.name + rest),
        }
    } else {
        let rest = seq!['/'] + name;
        match first_fault(rest, 0) {
            Some(k) => Err(k),
            None => Ok(m.namespace + rest),
        }
    }
}

/// The absolute name that `name` stands for: what it resolves to, replaced
/// once where that is the source of a remapping.
pub open spec fn translate(m: ResolverModel, name: Seq<char>) -> Result<Seq<char>, ErrorKind> {
    match resolve(m, name) {
        Err(k) => Err(k),
        Ok(r) => if m.remaps.contains_key(r) {
            Ok(m.remaps[r])
        } else {
            Ok(r)
        },
    }
}

/// What is wrong with `name` as the absolute name of a node.
pub open spec fn node_fault(name: Seq<char>) -> Option<ErrorKind> {
    if name.len() == 0 {
        Some(ErrorKind::EmptyName)
    } else if name[0] != '/' {
        Some(ErrorKind::LeadingSlashMissing)
    } else {
        first_fault(name, 0)
    }
}

/// The resolver after the remapping of `source` to `destination` was
/// recorded: both are translated, and the pair replaces any remapping with
/// the same source. Where one of the two cannot be translated, the error says
/// why and names it; the source is looked at first.
pub open spec fn map_model(m: ResolverModel, source: Seq<char>, destination: Seq<char>) -> Result<
    ResolverModel,
    (ErrorKind, Seq<char>),
> {
    match translate(m, source) {
        Err(k) => Err((k, source)),
        Ok(from) => match translate(m, destination) {
            Err(k) => Err((k, destination)),
            Ok(to) => Ok(ResolverModel { remaps: m.remaps.insert(from, to), ..m }),
        },
    }
}

/// The node's name is absolute and not the root, the namespace is its parent,
/// and every remapping leads from one absolute name to another.
pub open spec fn valid(m: ResolverModel) -> bool {
    &&& is_absolute(m.name)
    &&& m.name.len() > 0
    &&& m.namespace == parent_of(m.name)
    &&& forall|k: Seq<char>| #[trigger]
        m.remaps.contains_key(k) ==> {
            &&& is_absolute(k)
            &&& k.len() > 0
            &&& is_absolute(m.remaps[k])
            &&& m.remaps[k].len() > 0
        }
}

/// What a valid resolver resolves a name to is an absolute name other than
/// the root.
pub proof fn lemma_resolve_absolute(m: ResolverModel, name: Seq<char>)
    requires
        valid(m),
        resolve(m, name) is Ok,
    ensures
        is_absolute(resolve(m, name)->Ok_0),
        resolve(m, name)->Ok_0.len() > 0,
{
    lemma_parent(m.name);
    if name[0] == '/' {
        lemma_first_fault(name, 0);
    } else if name[0] == '~' {
        let rest = seq!['/'] + name.subrange(1, name.len() as int);
        lemma_first_fault(rest, 0);
        assert(rest[0] == '/');
        lemma_absolute_concat(m.name, rest);
    } else {
        let rest = seq!['/'] + name;
        lemma_first_fault(rest, 0);
        assert(rest[0] == '/');
        lemma_absolute_concat(m.namespace, rest);
    }
}

/// What a valid resolver translates a name to is an absolute name other than
/// the root.
pub proof fn lemma_translate_absolute(m: ResolverModel, name: Seq<char>)
    requires
        valid(m),
        translate(m, name) is Ok,
    ensures
        is_absolute(translate(m, name)->Ok_0),
        translate(m, name)->Ok_0.len() > 0,
{
    lemma_resolve_absolute(m, name);
}

/// Translating twice gives what translating once gives, for every name whose
/// translation is not itself remapped to another name.
pub proof fn lemma_translate_idempotent(m: ResolverModel, name: Seq<char>)
    requires
        valid(m),
        translate(m, name) is Ok,
        !(m.remaps.contains_key(translate(m, name)->Ok_0) && m.remaps[translate(m, name)->Ok_0]
            != translate(m, name)->Ok_0),
    ensures
        translate(m, translate(m, name)->Ok_0) == translate(m, name),
{
    let t = translate(m, name)->Ok_0;
    lemma_translate_absolute(m, name);
    lemma_first_fault(t, 0);
    assert(resolve(m, t) == Ok::<Seq<char>, ErrorKind>(t));
}

/// Lifts names to absolute ones and applies the remappings. No two
/// remappings have the same source.
pub struct Resolver {
    name: String,
    namespace: String,
    table: Vec<(String, String)>,
}

impl View for Resolver {
    type V = ResolverModel;

    closed spec fn view(&self) -> ResolverModel {
        ResolverModel {
            name: self.name@,
            namespace: self.namespace@,
            remaps: Map::new(
                |k: Seq<char>| exists|i: int| 0 <= i < self.table.len() && self.table[i].0@ == k,
                |k: Seq<char>|
                    self.table[choose|i: int| 0 <= i < self.table.len() && self.table[i].0@
                        == k].1@,
            ),
        }
    }
}

impl Resolver {
    /// No source occurs twice in the table, and the model is valid.
    pub closed spec fn wf(&self) -> bool {
        &&& valid(self@)
        &&& forall|i: int, j: int|
            0 <= i < j < self.table.len() ==> self.table[i].0@ != self.table[j].0@
    }

    /// A well-formed resolver has a valid model.
    pub proof fn lemma_wf_valid(&self)
        requires
            self.wf(),
        ensures
            valid(self@),
    {
    }

    /// A resolver for the node with the absolute name `name`, without
    /// remappings.
    pub fn new(name: &str) -> (r: Result<Resolver, Error>)
        ensures
            match r {
                Ok(res) => {
                    &&& res.wf()
                    &&& res@.name == name@
                    &&& res@.namespace == parent_of(name@)
                    &&& res@.remaps == Map::<Seq<char>, Seq<char>>::empty()
                    &&& node_fault(name@) is None
                },
                Err(e) => e.name@ == name@ && node_fault(name@) == Some(e.kind),
            },
    {
        let n: usize = name.unicode_len();
        if n == 0 {
            return Err(Error { kind: ErrorKind::EmptyName, name: name.to_owned() });
        }
        if name.get_char(0) != '/' {
            return Err(Error { kind: ErrorKind::LeadingSlashMissing, name: name.to_owned() });
        }
        match check(name) {
            Err(kind) => Err(Error { kind, name: name.to_owned() }),
            Ok(()) => {
                let mut end: usize = n;
                assert(name@.subrange(0, n as int) =~= name@);
                while end > 0 && name.get_char(end - 1) != '/'
                    invariant
                        n == name@.len(),
                        0 < end <= n,
                        name@[0] == '/',
                        parent_of(name@) == parent_of(name@.subrange(0, end as int)),
                    decreases end,
                {
                    assert(name@.subrange(0, end as int).drop_last() =~= name@.subrange(
                        0,
                        end - 1,
                    ));
                    end -= 1;
                }
                proof {
                    assert(name@.subrange(0, end as int).drop_last() =~= name@.subrange(
                        0,
                        end - 1,
                    ));
                    assert(name@.subrange(0, n as int) =~= name@);
                    lemma_first_fault(name@, 0);
                }
                let namespace = name.substring_char(0, end - 1).to_owned();
                let res = Resolver { name: name.to_owned(), namespace, table: Vec::new() };
                assert(res@.remaps =~= Map::<Seq<char>, Seq<char>>::empty());
                Ok(res)
            },
        }
    }

    /// Place of the remapping whose source is `key`.
    fn lookup(&self, key: &str) -> (r: Option<usize>)
        requires
            self.wf(),
        ensures
            match r {
                Some(i) => {
                    &&& i < self.table.len()
                    &&& self.table[i as int].0@ == key@
                    &&& self@.remaps.contains_key(key@)
                    &&& self@.remaps[key@] == self.table[i as int].1@
                },
                None => {
                    &&& !self@.remaps.contains_key(key@)
                    &&& forall|i: int| 0 <= i < self.table.len() ==> self.table[i].0@ != key@
                },
            },
    {
        let mut i: usize = 0;
        while i < self.table.len()
            invariant
                self.wf(),
                i <= self.table.len(),
                forall|j: int| 0 <= j < i ==> self.table[j].0@ != key@,
            decreases self.table.len() - i,
        {
            if crate::text::same_text(self.table[i].0.as_str(), key) {
                proof {
                    assert(0 <= i < self.table.len() && self.table[i as int].0@ == key@);
                    let j = choose|j: int| 0 <= j < self.table.len() && self.table[j].0@ == key@;
                    assert(self.table[j].0@ == key@);
                    if j < i {
                        assert(self.table[j].0@ != self.table[i as int].0@);
                    }
                    if i < j {
                        assert(self.table[i as int].0@ != self.table[j].0@);
                    }
                }
                return Some(i);
            }
            i += 1;
        }
        None
    }

    /// The absolute name that `name` stands for, before any remapping.
    fn resolve(&self, name: &str) -> (r: Result<String, Error>)
        ensures
            match r {
                Ok(s) => resolve(self@, name@) == Ok::<Seq<char>, ErrorKind>(s@),
                Err(e) => resolve(self@, name@) == Err::<Seq<char>, ErrorKind>(e.kind) && e.name@
                    == name@,
            },
    {
        let n: usize = name.unicode_len();
        if n == 0 {
            return Err(Error { kind: ErrorKind::EmptyName, name: name.to_owned() });
        }
        let first = name.get_char(0);
        if first == '/' {
            return match check(name) {
                Ok(()) => Ok(name.to_owned()),
                Err(kind) => Err(Error { kind, name: name.to_owned() }),
            };
        }
        proof {
            reveal_strlit("/");
            assert("/"@ =~= seq!['/']);
        }
        if first == '~' {
            let rest = String::from_str("/").concat(name.substring_char(1, n));
            match check(rest.as_str()) {
                Ok(()) => Ok(self.name.clone().concat(rest.as_str())),
                Err(kind) => Err(Error { kind, name: name.to_owned() }),
            }
        } else {
            let rest = String::from_str("/").concat(name);
            match check(rest.as_str()) {
                Ok(()) => Ok(self.namespace.clone().concat(rest.as_str())),
                Err(kind) => Err(Error { kind, name: name.to_owned() }),
            }
        }
    }

    /// The absolute name that `name` stands for, remappings applied.
    pub fn translate(&self, name: &str) -> (r: Result<String, Error>)
        requires
            self.wf(),
        ensures
            match r {
                Ok(s) => translate(self@, name@) == Ok::<Seq<char>, ErrorKind>(s@),
                Err(e) => translate(self@, name@) == Err::<Seq<char>, ErrorKind>(e.kind)
                    && e.name@ == name@,
            },
    {
        match self.resolve(name) {
            Err(e) => Err(e),
            Ok(resolved) => {
                match self.lookup(resolved.as_str()) {
                    Some(i) => Ok(self.table[i].1.clone()),
                    None => Ok(resolved),
                }
            },
        }
    }

    /// Records that `source` is to be replaced by `destination`. Both are
    /// translated first; a remapping with the same source is replaced.
    pub fn map(&mut self, source: &str, destination: &str) -> (r: Result<(), Error>)
        requires
            old(self).wf(),
        ensures
            final(self).wf(),
            match r {
                Ok(()) => map_model(old(self)@, source@, destination@) == Ok::<
                    ResolverModel,
                    (ErrorKind, Seq<char>),
                >(final(self)@),
                Err(e) => {
                    &&& final(self)@ == old(self)@
                    &&& map_model(old(self)@, source@, destination@) == Err::<
                        ResolverModel,
                        (ErrorKind, Seq<char>),
                    >((e.kind, e.name@))
                },
            },
    {
        let from = match self.translate(source) {
            Ok(s) => s,
            Err(e) => {
                return Err(e);
            },
        };
        let to = match self.translate(destination) {
            Ok(s) => s,
            Err(e) => {
                return Err(e);
            },
        };
        proof {
            lemma_translate_absolute(self@, source@);
            lemma_translate_absolute(self@, destination@);
        }
        let ghost before = *self;
        let ghost goal = before@.remaps.insert(from@, to@);
        match self.lookup(from.as_str()) {
            Some(i) => {
                self.table[i] = (from, to);
                assert forall|k: Seq<char>| #[trigger] goal.contains_key(k) implies (exists|
                    j: int,
                | 0 <= j < self.table.len() && self.table[j].0@ == k) by {
                    if k != from@ {
                        let j = choose|j: int|
                            0 <= j < before.table.len() && before.table[j].0@ == k;
                        assert(self.table[j].0@ == k);
                    } else {
                        assert(self.table[i as int].0@ == k);
                    }
                }
                assert forall|j: int| 0 <= j < self.table.len() implies goal.contains_key(
                    #[trigger] self.table[j].0@,
                ) && goal[self.table[j].0@] == self.table[j].1@ by {
                    if j != i {
                        assert(before.table[j].0@ == self.table[j].0@);
                    }
                }
            },
            None => {
                self.table.push((from, to));
                assert forall|k: Seq<char>| #[trigger] goal.contains_key(k) implies (exists|
                    j: int,
                | 0 <= j < self.table.len() && self.table[j].0@ == k) by {
                    if k != from@ {
                        let j = choose|j: int|
                            0 <= j < before.table.len() && before.table[j].0@ == k;
                        assert(self.table[j].0@ == k);
                    } else {
                        assert(self.table[before.table.len() as int].0@ == k);
                    }
                }
                assert forall|j: int| 0 <= j < self.table.len() implies goal.contains_key(
                    #[trigger] self.table[j].0@,
                ) && goal[self.table[j].0@] == self.table[j].1@ by {
                    if j < before.table.len() {
                        assert(before.table[j].0@ == self.table[j].0@);
                    }
                }
            },
        }
        assert(self@.remaps =~= goal);
        Ok(())
    }
}

} // verus!
