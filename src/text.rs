use vstd::prelude::*;

verus! {

/// The escape character a build file uses unless a directive names another.
pub const DEFAULT_ESCAPE: char = '\\';

/// Relies on `String::push`: it appends exactly the one character given.
pub assume_specification[ String::push ](s: &mut String, ch: char)
    ensures
        final(s)@ == old(s)@.push(ch),
;

/// How one character of a quoted value is written under escape character `e`.
pub open spec fn escape_char_seq(e: char, c: char) -> Seq<char> {
    if c == e {
        seq![e, e]
    } else if c == '"' {
        seq![e, '"']
    } else {
        seq![c]
    }
}

/// The body of a quoted value: each character of `s` escaped in turn.
pub open spec fn escape_body(e: char, s: Seq<char>) -> Seq<char>
    decreases s.len(),
{
    if s.len() == 0 {
        Seq::empty()
    } else {
        escape_char_seq(e, s[0]) + escape_body(e, s.skip(1))
    }
}

/// A value rendered double-quoted with escape character `e`.
pub open spec fn quoted(e: char, s: Seq<char>) -> Seq<char> {
    seq!['"'] + escape_body(e, s) + seq!['"']
}

/// Reverses the escaping: an escape character stands for the character after it.
pub open spec fn unescape(e: char, t: Seq<char>) -> Seq<char>
    decreases t.len(),
{
    if t.len() == 0 {
        Seq::empty()
    } else if t[0] == e && t.len() >= 2 {
        seq![t[1]] + unescape(e, t.skip(2))
    } else {
        seq![t[0]] + unescape(e, t.skip(1))
    }
}

/// `parts` joined with `sep` between neighbours.
pub open spec fn join(parts: Seq<Seq<char>>, sep: Seq<char>) -> Seq<char>
    decreases parts.len(),
{
    if parts.len() == 0 {
        Seq::empty()
    } else if parts.len() == 1 {
        parts[0]
    } else {
        join(parts.drop_last(), sep) + sep + parts.last()
    }
}

/// The characters of an optional string.
pub open spec fn opt_view(o: Option<String>) -> Option<Seq<char>> {
    match o {
        Some(t) => Some(t@),
        None => None,
    }
}

/// The views of a list of strings.
pub open spec fn views(v: Seq<String>) -> Seq<Seq<char>> {
    v.map_values(|s: String| s@)
}

/// Joining one part gives the part.
pub proof fn lemma_join1(a: Seq<char>, sep: Seq<char>)
    ensures
        join(seq![a], sep) == a,
{
}

/// Joining two parts puts the separator between them.
pub proof fn lemma_join2(a: Seq<char>, b: Seq<char>, sep: Seq<char>)
    ensures
        join(seq![a, b], sep) == a + sep + b,
{
    assert(seq![a, b].drop_last() =~= seq![a]);
    assert(join(seq![a], sep) == a);
    assert(seq![a, b].last() == b);
}

/// Joining three parts puts the separator between neighbours.
pub proof fn lemma_join3(a: Seq<char>, b: Seq<char>, c: Seq<char>, sep: Seq<char>)
    ensures
        join(seq![a, b, c], sep) == a + sep + b + sep + c,
{
    assert(seq![a, b, c].drop_last() =~= seq![a, b]);
    lemma_join2(a, b, sep);
}

/// Pushing a string pushes its view.
pub proof fn lemma_views_push(v: Seq<String>, s: String)
    ensures
        views(v.push(s)) == views(v).push(s@),
{
    assert(views(v.push(s)) =~= views(v).push(s@));
}

proof fn lemma_escape_body_push(e: char, s: Seq<char>, c: char)
    ensures
        escape_body(e, s.push(c)) == escape_body(e, s) + escape_char_seq(e, c),
    decreases s.len(),
{
    if s.len() == 0 {
        assert(s.push(c).skip(1) =~= Seq::<char>::empty());
        assert(escape_body(e, Seq::<char>::empty()) =~= Seq::<char>::empty());
    } else {
        assert(s.push(c).skip(1) =~= s.skip(1).push(c));
        lemma_escape_body_push(e, s.skip(1), c);
        assert(escape_body(e, s.push(c)) =~= escape_body(e, s) + escape_char_seq(e, c));
    }
}

/// Unescaping what escaping produced gives back the characters escaped.
pub proof fn lemma_unescape_escape_body(e: char, s: Seq<char>)
    ensures
        unescape(e, escape_body(e, s)) == s,
    decreases s.len(),
{
    if s.len() > 0 {
        let rest = escape_body(e, s.skip(1));
        lemma_unescape_escape_body(e, s.skip(1));
        let t = escape_char_seq(e, s[0]) + rest;
        if s[0] == e || s[0] == '"' {
            assert(t.skip(2) =~= rest);
        } else {
            assert(t.skip(1) =~= rest);
        }
        assert(unescape(e, t) =~= seq![s[0]] + s.skip(1));
        assert(seq![s[0]] + s.skip(1) =~= s);
    } else {
        assert(escape_body(e, s) =~= Seq::<char>::empty());
    }
}

/// Escaping round trip: take the quotes off a rendered value, undo the
/// escaping, and the value rendered comes back, whatever escape character
/// and quotes it holds.
pub proof fn lemma_quoted_round_trip(e: char, s: Seq<char>)
    ensures
        ({
            let t = quoted(e, s);
            &&& t.len() >= 2
            &&& t[0] == '"'
            &&& t.last() == '"'
            &&& unescape(e, t.subrange(1, t.len() - 1)) == s
        }),
{
    let t = quoted(e, s);
    assert(t.subrange(1, t.len() - 1) =~= escape_body(e, s));
    lemma_unescape_escape_body(e, s);
}

/// Renders `s` double-quoted: each escape character doubled and each double
/// quote preceded by the escape character.
pub fn escape_str(escape: char, s: &str) -> (r: String)
    ensures
        r@ == quoted(escape, s@),
{
    let n = s.unicode_len();
    let mut r = String::new();
    r.push('"');
    let mut i: usize = 0;
    while i < n
        invariant
            n == s@.len(),
            i <= n,
            r@ == seq!['"'] + escape_body(escape, s@.take(i as int)),
        decreases n - i,
    {
        let c = s.get_char(i);
        if c == escape {
            r.push(escape);
            r.push(escape);
        } else if c == '"' {
            r.push(escape);
            r.push('"');
        } else {
            r.push(c);
        }
        proof {
            assert(s@.take(i as int + 1) =~= s@.take(i as int).push(c));
            lemma_escape_body_push(escape, s@.take(i as int), c);
        }
        i = i + 1;
    }
    r.push('"');
    proof {
        assert(s@.take(n as int) =~= s@);
    }
    r
}

/// The one-element list holding `o`'s value, or the empty list.
pub open spec fn opt_part(o: Option<Seq<char>>) -> Seq<Seq<char>> {
    match o {
        Some(x) => seq![x],
        None => Seq::empty(),
    }
}

/// The one-element list holding `o`'s value if that is not empty, or the
/// empty list.
pub open spec fn nonempty_part(o: Option<Seq<char>>) -> Seq<Seq<char>> {
    match o {
        Some(x) => if x.len() > 0 {
            seq![x]
        } else {
            Seq::empty()
        },
        None => Seq::empty(),
    }
}

/// Appends `t` to `parts` unless it is empty.
pub fn push_nonempty(parts: &mut Vec<String>, t: String)
    ensures
        views(final(parts)@) == views(old(parts)@) + nonempty_part(Some(t@)),
{
    if t.as_str().unicode_len() > 0 {
        let ghost prev = parts@;
        let ghost tv = t@;
        parts.push(t);
        assert(views(parts@) =~= views(prev) + seq![tv]);
    } else {
        assert(views(parts@) =~= views(parts@) + Seq::<Seq<char>>::empty());
    }
}

/// `a` followed by `b`, as a new string.
pub fn cat(a: &str, b: &str) -> (r: String)
    ensures
        r@ == a@ + b@,
{
    let mut r = String::from_str(a);
    r.append(b);
    r
}

/// Joins `parts` with `sep` between neighbours.
pub fn join_strings(parts: &Vec<String>, sep: &str) -> (r: String)
    ensures
        r@ == join(views(parts@), sep@),
{
    let mut r = String::new();
    let mut i: usize = 0;
    while i < parts.len()
        invariant
            i <= parts@.len(),
            r@ == join(views(parts@.take(i as int)), sep@),
        decreases parts@.len() - i,
    {
        if i > 0 {
            r.append(sep);
        }
        r.append(parts[i].as_str());
        proof {
            let prev = views(parts@.take(i as int));
            let next = views(parts@.take(i as int + 1));
            assert(next.drop_last() =~= prev);
            assert(next.last() == parts@[i as int]@);
            if i == 0 {
                assert(prev =~= Seq::<Seq<char>>::empty());
            }
        }
        i = i + 1;
    }
    proof {
        assert(parts@.take(parts@.len() as int) =~= parts@);
    }
    r
}

} // verus!
