//! Where a node takes its bootstrap values from: the arguments it was
//! started with come first, then the environment, then a default.

use vstd::prelude::*;
use crate::text::{pairs, views};

verus! {

/// Whether `s` starts with `p`.
pub open spec fn starts_with(s: Seq<char>, p: Seq<char>) -> bool {
    p.len() <= s.len() && s.subrange(0, p.len() as int) == p
}

/// `s` without every `p` that it starts with, one after the other.
pub open spec fn stripped(s: Seq<char>, p: Seq<char>) -> Seq<char>
    decreases s.len(),
{
    if p.len() > 0 && starts_with(s, p) {
        stripped(s.subrange(p.len() as int, s.len() as int), p)
    } else {
        s
    }
}

/// Whether `:=` stands at place `i` of `s`.
pub open spec fn assigns_at(s: Seq<char>, i: int) -> bool {
    0 <= i && i + 1 < s.len() && s[i] == ':' && s[i + 1] == '='
}

/// The two sides of an argument that remaps a name: an argument that does
/// not start with `_` and holds `:=` exactly once.
pub open spec fn mapping_of(arg: Seq<char>) -> Option<(Seq<char>, Seq<char>)> {
    if arg.len() > 0 && arg[0] == '_' {
        None
    } else if exists|i: int| assigns_at(arg, i) {
        let i = choose|i: int| assigns_at(arg, i);
        if forall|j: int| assigns_at(arg, j) ==> j == i {
            Some((arg.subrange(0, i), arg.subrange(i + 2, arg.len() as int)))
        } else {
            None
        }
    } else {
        None
    }
}

/// The remappings among the arguments from place `from` up to place `n`, in
/// their order.
pub open spec fn mappings_of(args: Seq<Seq<char>>, from: int, n: int) -> Seq<
    (Seq<char>, Seq<char>),
>
    decreases n - from,
{
    if n <= from {
        Seq::empty()
    } else {
        match mapping_of(args[n - 1]) {
            Some(m) => mappings_of(args, from, n - 1).push(m),
            None => mappings_of(args, from, n - 1),
        }
    }
}

/// The value of the first argument from place `from` on that starts with
/// `prefix`: what follows the prefix.
pub open spec fn value_with_prefix(args: Seq<Seq<char>>, prefix: Seq<char>, from: int) -> Option<
    Seq<char>,
>
    decreases args.len() - from,
{
    if from < 0 || from >= args.len() {
        None
    } else if starts_with(args[from], prefix) {
        Some(stripped(args[from], prefix))
    } else {
        value_with_prefix(args, prefix, from + 1)
    }
}

/// The first of the given values that is there; `fallback` where none is.
pub open spec fn first_of(
    a: Option<Seq<char>>,
    b: Option<Seq<char>>,
    c: Option<Seq<char>>,
    d: Option<Seq<char>>,
    fallback: Seq<char>,
) -> Seq<char> {
    if a is Some {
        a->Some_0
    } else if b is Some {
        b->Some_0
    } else if c is Some {
        c->Some_0
    } else if d is Some {
        d->Some_0
    } else {
        fallback
    }
}

/// The characters of a value that may be missing.
pub open spec fn maybe(v: Option<String>) -> Option<Seq<char>> {
    match v {
        Some(s) => Some(s@),
        None => None,
    }
}

fn begins(s: &str, p: &str) -> (r: bool)
    ensures
        r == starts_with(s@, p@),
{
    let n: usize = s.unicode_len();
    let m: usize = p.unicode_len();
    if m > n {
        return false;
    }
    let mut i: usize = 0;
    while i < m
        invariant
            m == p@.len(),
            n == s@.len(),
            m <= n,
            i <= m,
            forall|k: int| 0 <= k < i ==> s@[k] == p@[k],
        decreases m - i,
    {
        if s.get_char(i) != p.get_char(i) {
            assert(s@.subrange(0, m as int)[i as int] != p@[i as int]);
            return false;
        }
        i += 1;
    }
    assert(s@.subrange(0, m as int) =~= p@);
    true
}

fn strip<'a>(s: &'a str, p: &str) -> (r: &'a str)
    ensures
        r@ == stripped(s@, p@),
{
    let m: usize = p.unicode_len();
    let mut rest: &'a str = s;
    if m == 0 {
        return rest;
    }
    while begins(rest, p)
        invariant
            m == p@.len(),
            m > 0,
            stripped(s@, p@) == stripped(rest@, p@),
        decreases rest@.len(),
    {
        let n: usize = rest.unicode_len();
        rest = rest.substring_char(m, n);
    }
    rest
}

/// The value of the first argument behind the program's name that starts
/// with `prefix`.
pub fn find_with_prefix(args: &Vec<String>, prefix: &str) -> (r: Option<String>)
    ensures
        maybe(r) == value_with_prefix(views(args@), prefix@, 1),
{
    let mut i: usize = 1;
    while i < args.len()
        invariant
            1 <= i,
            value_with_prefix(views(args@), prefix@, 1) == value_with_prefix(
                views(args@),
                prefix@,
                i as int,
            ),
        decreases args.len() - i,
    {
        assert(views(args@)[i as int] == args[i as int]@);
        if begins(args[i].as_str(), prefix) {
            return Some(strip(args[i].as_str(), prefix).to_owned());
        }
        i += 1;
    }
    None
}

/// The two sides of an argument that remaps a name.
pub fn mapping(arg: &str) -> (r: Option<(String, String)>)
    ensures
        match r {
            Some(m) => mapping_of(arg@) == Some((m.0@, m.1@)),
            None => mapping_of(arg@) is None,
        },
{
    let n: usize = arg.unicode_len();
    if n > 0 && arg.get_char(0) == '_' {
        return None;
    }
    let mut found: Option<usize> = None;
    let mut i: usize = 0;
    while i < n
        invariant
            n == arg@.len(),
            i <= n,
            match found {
                Some(at) => at < i && assigns_at(arg@, at as int) && forall|j: int|
                    0 <= j < i && assigns_at(arg@, j) ==> j == at,
                None => forall|j: int| 0 <= j < i ==> !assigns_at(arg@, j),
            },
        decreases n - i,
    {
        if i + 1 < n && arg.get_char(i) == ':' && arg.get_char(i + 1) == '=' {
            match found {
                Some(at) => {
                    assert(assigns_at(arg@, at as int) && assigns_at(arg@, i as int));
                    proof {
                        let w = choose|w: int| assigns_at(arg@, w);
                        if w == at {
                            assert(assigns_at(arg@, i as int) && i != w);
                        } else {
                            assert(assigns_at(arg@, at as int) && at != w);
                        }
                    }
                    return None;
                },
                None => {
                    found = Some(i);
                },
            }
        }
        i += 1;
    }
    match found {
        None => {
            assert forall|j: int| !assigns_at(arg@, j) by {
                if 0 <= j && j + 1 < n {
                    assert(j < i);
                }
            }
            None
        },
        Some(at) => {
            proof {
                assert forall|j: int| assigns_at(arg@, j) implies j == at by {
                    assert(j < i);
                }
                let w = choose|w: int| assigns_at(arg@, w);
                assert(w == at);
            }
            Some(
                (arg.substring_char(0, at).to_owned(), arg.substring_char(at + 2, n).to_owned()),
            )
        },
    }
}

/// The remappings among the arguments behind the program's name.
pub fn mappings(args: &Vec<String>) -> (r: Vec<(String, String)>)
    ensures
        pairs(r@) == mappings_of(views(args@), 1, args@.len() as int),
{
    let mut out: Vec<(String, String)> = Vec::new();
    let mut i: usize = 1;
    assert(pairs(out@) =~= mappings_of(views(args@), 1, 1));
    if args.len() < 1 {
        assert(pairs(out@) =~= mappings_of(views(args@), 1, 0));
        return out;
    }
    while i < args.len()
        invariant
            1 <= i <= args.len(),
            pairs(out@) == mappings_of(views(args@), 1, i as int),
        decreases args.len() - i,
    {
        assert(views(args@)[i as int] == args[i as int]@);
        match mapping(args[i].as_str()) {
            Some(m) => {
                let ghost before = pairs(out@);
                out.push(m);
                assert(pairs(out@) =~= before.push((m.0@, m.1@)));
            },
            None => {},
        }
        i += 1;
    }
    out
}

/// The node's own name: the argument `__name:=`, else `default`.
pub fn name(args: &Vec<String>, default: &str) -> (r: String)
    ensures
        r@ == first_of(value_with_prefix(views(args@), "__name:="@, 1), None, None, None, default@),
{
    match find_with_prefix(args, "__name:=") {
        Some(v) => v,
        None => default.to_owned(),
    }
}

/// The node's namespace: the argument `__ns:=`, else the value of the
/// environment, else none.
pub fn namespace(args: &Vec<String>, environment: Option<String>) -> (r: String)
    ensures
        r@ == first_of(
            value_with_prefix(views(args@), "__ns:="@, 1),
            maybe(environment),
            None,
            None,
            Seq::empty(),
        ),
{
    match find_with_prefix(args, "__ns:=") {
        Some(v) => v,
        None => match environment {
            Some(v) => v,
            None => String::new(),
        },
    }
}

/// The endpoint of the directory: the argument `__master:=`, else the value
/// of the environment, else the usual one on this host.
pub fn master(args: &Vec<String>, environment: Option<String>) -> (r: String)
    ensures
        r@ == first_of(
            value_with_prefix(views(args@), "__master:="@, 1),
            maybe(environment),
            None,
            None,
            "http://localhost:11311/"@,
        ),
{
    match find_with_prefix(args, "__master:=") {
        Some(v) => v,
        None => match environment {
            Some(v) => v,
            None => String::from_str("http://localhost:11311/"),
        },
    }
}

/// The host under which the node is reached: the argument `__hostname:=`,
/// else the argument `__ip:=`, else the host name of the environment, else
/// its address, else the name that the system gives the machine.
pub fn hostname(
    args: &Vec<String>,
    environment_name: Option<String>,
    environment_ip: Option<String>,
    system: &str,
) -> (r: String)
    ensures
        r@ == first_of(
            value_with_prefix(views(args@), "__hostname:="@, 1),
            value_with_prefix(views(args@), "__ip:="@, 1),
            maybe(environment_name),
            maybe(environment_ip),
            system@,
        ),
{
    match find_with_prefix(args, "__hostname:=") {
        Some(v) => {
            return v;
        },
        None => {},
    }
    match find_with_prefix(args, "__ip:=") {
        Some(v) => {
            return v;
        },
        None => {},
    }
    match environment_name {
        Some(v) => {
            return v;
        },
        None => {},
    }
    match environment_ip {
        Some(v) => v,
        None => system.to_owned(),
    }
}

} // verus!
