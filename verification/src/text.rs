//! Small verified helpers on strings and sequences of characters.

use vstd::prelude::*;

verus! {

/// Position of the first occurrence of `c` in `s`, if there is one.
pub fn find_char(s: &str, c: char) -> (r: Option<usize>)
    ensures
        match r {
            Some(i) => i < s@.len() && s@[i as int] == c && !s@.subrange(0, i as int).contains(c),
            None => !s@.contains(c),
        },
{
    let n: usize = s.unicode_len();
    let mut i: usize = 0;
    while i < n
        invariant
            n == s@.len(),
            i <= n,
            forall|j: int| 0 <= j < i ==> s@[j] != c,
        decreases n - i,
    {
        if s.get_char(i) == c {
            return Some(i);
        }
        i += 1;
    }
    None
}

/// Whether two strings hold the same characters.
pub fn same_text(a: &str, b: &str) -> (r: bool)
    ensures
        r == (a@ == b@),
{
    let x: String = a.to_owned();
    let y: String = b.to_owned();
    x == y
}

/// The characters of each string of a list.
pub open spec fn views(v: Seq<String>) -> Seq<Seq<char>> {
    v.map_values(|s: String| s@)
}

/// The characters of both texts of each pair of a list.
pub open spec fn pairs(v: Seq<(String, String)>) -> Seq<(Seq<char>, Seq<char>)> {
    v.map_values(|f: (String, String)| (f.0@, f.1@))
}

/// The lines of a text, set one below the other: a line feed stands between
/// two lines, none after the last.
pub open spec fn join_lines(lines: Seq<Seq<char>>) -> Seq<char>
    decreases lines.len(),
{
    if lines.len() == 0 {
        Seq::empty()
    } else if lines.len() == 1 {
        lines[0]
    } else {
        join_lines(lines.drop_last()) + seq!['\n'] + lines.last()
    }
}

/// Appends one line to a list of lines.
pub fn push_line(out: &mut Vec<String>, line: String)
    ensures
        views(final(out)@) == views(old(out)@).push(line@),
{
    out.push(line);
    assert(views(out@) =~= views(old(out)@).push(line@));
}

/// Sets the lines of a list one below the other.
pub fn join(lines: &Vec<String>) -> (r: String)
    ensures
        r@ == join_lines(views(lines@)),
{
    let mut text: String = String::new();
    let mut i: usize = 0;
    while i < lines.len()
        invariant
            i <= lines.len(),
            text@ == join_lines(views(lines@).take(i as int)),
        decreases lines.len() - i,
    {
        let ghost before = views(lines@).take(i as int);
        let ghost after = views(lines@).take(i + 1);
        assert(after.drop_last() =~= before);
        assert(after.last() == lines[i as int]@);
        if i > 0 {
            proof {
                reveal_strlit("\n");
            }
            text.append("\n");
            assert("\n"@ =~= seq!['\n']);
        }
        text.append(lines[i].as_str());
        assert(text@ =~= join_lines(after));
        i += 1;
    }
    assert(views(lines@).take(lines.len() as int) =~= views(lines@));
    text
}

/// The first `n` entries of a list without those that occurred before.
pub open spec fn distinct(s: Seq<Seq<char>>, n: int) -> Seq<Seq<char>>
    decreases n,
{
    if n <= 0 {
        Seq::empty()
    } else if distinct(s, n - 1).contains(s[n - 1]) {
        distinct(s, n - 1)
    } else {
        distinct(s, n - 1).push(s[n - 1])
    }
}

/// Those among the first `n` entries of `s` that `t` does not hold.
pub open spec fn without(s: Seq<Seq<char>>, t: Seq<Seq<char>>, n: int) -> Seq<Seq<char>>
    decreases n,
{
    if n <= 0 {
        Seq::empty()
    } else if t.contains(s[n - 1]) {
        without(s, t, n - 1)
    } else {
        without(s, t, n - 1).push(s[n - 1])
    }
}

/// A list without repeats holds exactly what the list it was made from
/// holds, and nothing twice.
pub proof fn lemma_distinct(s: Seq<Seq<char>>, n: int)
    requires
        0 <= n <= s.len(),
    ensures
        distinct(s, n).no_duplicates(),
        forall|x: Seq<char>|
            #![trigger distinct(s, n).contains(x)]
            #![trigger s.take(n).contains(x)]
            distinct(s, n).contains(x) <==> s.take(n).contains(x),
    decreases n,
{
    if n > 0 {
        lemma_distinct(s, n - 1);
        let d = distinct(s, n - 1);
        let full = distinct(s, n);
        let short = s.take(n - 1);
        let long = s.take(n);
        assert(short =~= long.drop_last());
        assert forall|x: Seq<char>|
            #![trigger distinct(s, n).contains(x)]
            #![trigger s.take(n).contains(x)]
            distinct(s, n).contains(x) <==> s.take(n).contains(x) by {
            if distinct(s, n).contains(x) {
                if d.contains(x) {
                    let j = choose|j: int| 0 <= j < short.len() && short[j] == x;
                    assert(s.take(n)[j] == x);
                } else {
                    assert(d.push(s[n - 1]).last() == s[n - 1]);
                    let k = choose|k: int| 0 <= k < full.len() && full[k] == x;
                    if k < d.len() {
                        assert(d[k] == x);
                    }
                    assert(s.take(n)[n - 1] == x);
                }
            }
            if s.take(n).contains(x) {
                let j = choose|j: int| 0 <= j < long.len() && long[j] == x;
                if j < n - 1 {
                    assert(s.take(n - 1)[j] == x);
                    assert(d.contains(x));
                    let k = choose|k: int| 0 <= k < d.len() && d[k] == x;
                    if !d.contains(s[n - 1]) {
                        assert(d.push(s[n - 1])[k] == x);
                    }
                } else {
                    if !d.contains(s[n - 1]) {
                        assert(d.push(s[n - 1])[d.len() as int] == x);
                    }
                }
            }
        }
    }
}

/// What is left of a list without the entries of another holds none of
/// them, holds every other entry of the list, and repeats nothing that the
/// list does not repeat.
pub proof fn lemma_without(s: Seq<Seq<char>>, t: Seq<Seq<char>>, n: int)
    requires
        0 <= n <= s.len(),
    ensures
        forall|x: Seq<char>|
            #![trigger without(s, t, n).contains(x)]
            #![trigger s.take(n).contains(x)]
            without(s, t, n).contains(x) <==> s.take(n).contains(x) && !t.contains(x),
        s.no_duplicates() ==> without(s, t, n).no_duplicates(),
    decreases n,
{
    if n > 0 {
        lemma_without(s, t, n - 1);
        let w = without(s, t, n - 1);
        let full = without(s, t, n);
        let short = s.take(n - 1);
        let long = s.take(n);
        assert(short =~= long.drop_last());
        assert forall|x: Seq<char>|
            #![trigger without(s, t, n).contains(x)]
            #![trigger s.take(n).contains(x)]
            without(s, t, n).contains(x) <==> s.take(n).contains(x) && !t.contains(x) by {
            if without(s, t, n).contains(x) {
                if w.contains(x) {
                    let j = choose|j: int| 0 <= j < short.len() && short[j] == x;
                    assert(s.take(n)[j] == x);
                } else {
                    let k = choose|k: int| 0 <= k < full.len() && full[k] == x;
                    if k < w.len() {
                        assert(w[k] == x);
                    }
                    assert(s.take(n)[n - 1] == x);
                }
            }
            if s.take(n).contains(x) && !t.contains(x) {
                let j = choose|j: int| 0 <= j < long.len() && long[j] == x;
                if j < n - 1 {
                    assert(s.take(n - 1)[j] == x);
                    assert(w.contains(x));
                    let k = choose|k: int| 0 <= k < w.len() && w[k] == x;
                    if !t.contains(s[n - 1]) {
                        assert(w.push(s[n - 1])[k] == x);
                    }
                } else {
                    assert(w.push(s[n - 1])[w.len() as int] == x);
                }
            }
        }
        if s.no_duplicates() && !t.contains(s[n - 1]) {
            if w.contains(s[n - 1]) {
                let j = choose|j: int| 0 <= j < short.len() && short[j] == s[n - 1];
                assert(s[j] == s[n - 1]);
            }
        }
    }
}

/// Whether `list` holds `item`.
pub fn holds(list: &Vec<String>, item: &str) -> (r: bool)
    ensures
        r == views(list@).contains(item@),
{
    let mut i: usize = 0;
    while i < list.len()
        invariant
            i <= list.len(),
            forall|k: int| 0 <= k < i ==> views(list@)[k] != item@,
        decreases list.len() - i,
    {
        if same_text(list[i].as_str(), item) {
            assert(views(list@)[i as int] == item@);
            return true;
        }
        i += 1;
    }
    false
}

/// The entries of `list`, each once, in the order in which they first occur.
pub fn unique(list: &Vec<String>) -> (r: Vec<String>)
    ensures
        views(r@) == distinct(views(list@), list@.len() as int),
{
    let mut out: Vec<String> = Vec::new();
    let mut i: usize = 0;
    assert(views(out@) =~= distinct(views(list@), 0));
    while i < list.len()
        invariant
            i <= list.len(),
            views(out@) == distinct(views(list@), i as int),
        decreases list.len() - i,
    {
        assert(views(list@)[i as int] == list[i as int]@);
        if !holds(&out, list[i].as_str()) {
            push_line(&mut out, list[i].clone());
        }
        i += 1;
    }
    out
}

/// The entries of `list` that `other` does not hold, in their order.
pub fn absent(list: &Vec<String>, other: &Vec<String>) -> (r: Vec<String>)
    ensures
        views(r@) == without(views(list@), views(other@), list@.len() as int),
{
    let mut out: Vec<String> = Vec::new();
    let mut i: usize = 0;
    assert(views(out@) =~= without(views(list@), views(other@), 0));
    while i < list.len()
        invariant
            i <= list.len(),
            views(out@) == without(views(list@), views(other@), i as int),
        decreases list.len() - i,
    {
        assert(views(list@)[i as int] == list[i as int]@);
        if !holds(other, list[i].as_str()) {
            push_line(&mut out, list[i].clone());
        }
        i += 1;
    }
    out
}

/// The entries of `a`, then those of `b`.
pub fn appended(a: &Vec<String>, b: &Vec<String>) -> (r: Vec<String>)
    ensures
        views(r@) == views(a@) + views(b@),
{
    let mut out = copy(a);
    let mut i: usize = 0;
    assert(views(out@) =~= views(a@) + views(b@).take(0));
    while i < b.len()
        invariant
            i <= b.len(),
            views(out@) == views(a@) + views(b@).take(i as int),
        decreases b.len() - i,
    {
        push_line(&mut out, b[i].clone());
        assert(views(out@) =~= views(a@) + views(b@).take(i + 1));
        i += 1;
    }
    assert(views(b@).take(b@.len() as int) =~= views(b@));
    out
}

/// A copy of a list of strings.
pub fn copy(list: &Vec<String>) -> (r: Vec<String>)
    ensures
        views(r@) == views(list@),
{
    let mut out: Vec<String> = Vec::new();
    let mut i: usize = 0;
    while i < list.len()
        invariant
            i <= list.len(),
            views(out@) == views(list@).take(i as int),
        decreases list.len() - i,
    {
        push_line(&mut out, list[i].clone());
        assert(views(out@) =~= views(list@).take(i + 1));
        i += 1;
    }
    assert(views(list@).take(list@.len() as int) =~= views(list@));
    out
}

/// The character of a digit.
pub open spec fn digit(d: nat) -> char {
    if d == 0 {
        '0'
    } else if d == 1 {
        '1'
    } else if d == 2 {
        '2'
    } else if d == 3 {
        '3'
    } else if d == 4 {
        '4'
    } else if d == 5 {
        '5'
    } else if d == 6 {
        '6'
    } else if d == 7 {
        '7'
    } else if d == 8 {
        '8'
    } else {
        '9'
    }
}

/// A number in decimal, without leading zeros.
pub open spec fn decimal_text(n: nat) -> Seq<char>
    decreases n,
{
    if n < 10 {
        seq![digit(n)]
    } else {
        decimal_text(n / 10).push(digit(n % 10))
    }
}

fn digit_text(d: u64) -> (r: &'static str)
    requires
        d < 10,
    ensures
        r@ == seq![digit(d as nat)],
{
    proof {
        reveal_strlit("0");
        reveal_strlit("1");
        reveal_strlit("2");
        reveal_strlit("3");
        reveal_strlit("4");
        reveal_strlit("5");
        reveal_strlit("6");
        reveal_strlit("7");
        reveal_strlit("8");
        reveal_strlit("9");
    }
    let r = if d == 0 {
        "0"
    } else if d == 1 {
        "1"
    } else if d == 2 {
        "2"
    } else if d == 3 {
        "3"
    } else if d == 4 {
        "4"
    } else if d == 5 {
        "5"
    } else if d == 6 {
        "6"
    } else if d == 7 {
        "7"
    } else if d == 8 {
        "8"
    } else {
        "9"
    };
    assert(r@ =~= seq![digit(d as nat)]);
    r
}

/// Writes a number in decimal.
pub fn decimal(n: u64) -> (r: String)
    ensures
        r@ == decimal_text(n as nat),
    decreases n,
{
    if n < 10 {
        String::from_str(digit_text(n))
    } else {
        let r = decimal(n / 10).concat(digit_text(n % 10));
        assert(r@ =~= decimal_text((n / 10) as nat).push(digit((n % 10) as nat)));
        r
    }
}

/// Place of the first `c` in `s`; the length of `s` where there is none.
pub open spec fn first_index(s: Seq<char>, c: char) -> int
    decreases s.len(),
{
    if s.len() == 0 || s[0] == c {
        0
    } else {
        1 + first_index(s.drop_first(), c)
    }
}

/// The pieces of `s` between its separators, in their order: one piece more
/// than there are separators, so that a text without any is one piece.
pub open spec fn pieces(s: Seq<char>, sep: char) -> Seq<Seq<char>>
    decreases s.len(),
{
    let at = first_index(s, sep);
    if 0 <= at < s.len() {
        seq![s.subrange(0, at)] + pieces(s.subrange(at + 1, s.len() as int), sep)
    } else {
        seq![s]
    }
}

/// The place of the first `c` is within the text, nothing before it is `c`,
/// and it holds `c` unless it is the end.
pub proof fn lemma_first_index(s: Seq<char>, c: char)
    ensures
        0 <= first_index(s, c) <= s.len(),
        forall|i: int| 0 <= i < first_index(s, c) ==> s[i] != c,
        first_index(s, c) < s.len() ==> s[first_index(s, c)] == c,
    decreases s.len(),
{
    if s.len() > 0 && s[0] != c {
        let t = s.drop_first();
        lemma_first_index(t, c);
        assert forall|i: int| 0 <= i < first_index(s, c) implies s[i] != c by {
            if i > 0 {
                assert(s[i] == t[i - 1]);
            }
        }
        if first_index(s, c) < s.len() {
            assert(s[first_index(s, c)] == t[first_index(t, c)]);
        }
    }
}

/// Cuts `s` at every `sep`.
pub fn split(s: &str, sep: char) -> (r: Vec<String>)
    ensures
        views(r@) == pieces(s@, sep),
{
    let n: usize = s.unicode_len();
    let mut out: Vec<String> = Vec::new();
    let mut start: usize = 0;
    let mut i: usize = 0;
    assert(s@.subrange(0, n as int) =~= s@);
    assert(views(out@) + pieces(s@, sep) =~= pieces(s@, sep));
    while i < n
        invariant
            n == s@.len(),
            start <= i <= n,
            forall|k: int| start <= k < i ==> s@[k] != sep,
            pieces(s@, sep) == views(out@) + pieces(s@.subrange(start as int, n as int), sep),
        decreases n - i,
    {
        if s.get_char(i) == sep {
            let ghost rest = s@.subrange(start as int, n as int);
            proof {
                lemma_first_index(rest, sep);
                let at = first_index(rest, sep);
                if at < i - start {
                    assert(rest[at] == s@[start + at]);
                }
                if at > i - start {
                    assert(rest[i - start] == s@[i as int]);
                }
                assert(at == i - start);
                assert(rest.subrange(0, at) =~= s@.subrange(start as int, i as int));
                assert(rest.subrange(at + 1, rest.len() as int) =~= s@.subrange(i + 1, n as int));
            }
            let ghost before = views(out@);
            push_line(&mut out, s.substring_char(start, i).to_owned());
            assert(before + (seq![s@.subrange(start as int, i as int)] + pieces(
                s@.subrange(i + 1, n as int),
                sep,
            )) =~= views(out@) + pieces(s@.subrange(i + 1, n as int), sep));
            start = i + 1;
        }
        i += 1;
    }
    proof {
        let rest = s@.subrange(start as int, n as int);
        lemma_first_index(rest, sep);
        let at = first_index(rest, sep);
        if at < rest.len() {
            assert(rest[at] == s@[start + at]);
        }
        assert(pieces(rest, sep) =~= seq![rest]);
    }
    let ghost before = views(out@);
    push_line(&mut out, s.substring_char(start, n).to_owned());
    assert(views(out@) =~= before + seq![s@.subrange(start as int, n as int)]);
    out
}

} // verus!
