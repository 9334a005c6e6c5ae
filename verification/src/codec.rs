//! Serialized form of a change's element sequence: the JSON array of
//! tagged runs under which change rows are persisted.  The serializer
//! emits one canonical text per element sequence; the parser accepts
//! exactly that canonical form and hands back a sequence that serializes
//! to the parsed text, so nothing malformed is ever silently repaired —
//! it is surfaced as corrupt history.

use vstd::prelude::*;

use crate::types::ChangeElement;
use crate::types::ChangeType;
use crate::types::CodemkinError;

verus! {

/// The escaped form of one character inside a JSON string literal.
pub open spec fn escape_char(c: char) -> Seq<char> {
    if c == '"' {
        seq!['\\', '"']
    } else if c == '\\' {
        seq!['\\', '\\']
    } else if c == '\n' {
        seq!['\\', 'n']
    } else if c == '\r' {
        seq!['\\', 'r']
    } else if c == '\t' {
        seq!['\\', 't']
    } else {
        seq![c]
    }
}

/// The escaped form of a text inside a JSON string literal.
pub open spec fn escape_str(s: Seq<char>) -> Seq<char>
    decreases s.len(),
{
    if s.len() == 0 {
        Seq::empty()
    } else {
        escape_str(s.drop_last()) + escape_char(s.last())
    }
}

/// The tag word of an element together with the punctuation up to its
/// content field.
pub open spec fn tag_mid(t: ChangeType) -> Seq<char> {
    match t {
        ChangeType::Same => "same\",\"content\":\""@,
        ChangeType::Add => "add\",\"content\":\""@,
        ChangeType::Remove => "remove\",\"content\":\""@,
    }
}

/// The serialized form of one element.
pub open spec fn spec_serialize_element(e: ChangeElement) -> Seq<char> {
    "{\"type\":\""@ + tag_mid(e.type_) + escape_str(e.content@) + seq!['"', '}']
}

/// The serialized elements, comma separated.
pub open spec fn spec_serialize_inner(s: Seq<ChangeElement>) -> Seq<char>
    decreases s.len(),
{
    if s.len() == 0 {
        Seq::empty()
    } else if s.len() == 1 {
        spec_serialize_element(s[0])
    } else {
        spec_serialize_inner(s.drop_last()) + seq![','] + spec_serialize_element(s.last())
    }
}

/// The serialized form of an element sequence: a JSON array.
pub open spec fn spec_serialize_elements(s: Seq<ChangeElement>) -> Seq<char> {
    seq!['['] + spec_serialize_inner(s) + seq![']']
}

/// Appends the escaped form of a text.
fn append_escaped(out: &mut String, s: &str)
    ensures
        final (out)@ == old(out)@ + escape_str(s@),
{
    let n = s.unicode_len();
    let mut i: usize = 0;
    proof {
        assert(s@.take(0) =~= Seq::<char>::empty());
        assert(old(out)@ + Seq::<char>::empty() =~= old(out)@);
    }
    while i < n
        invariant
            i <= n,
            n == s@.len(),
            out@ == old(out)@ + escape_str(s@.take(i as int)),
        decreases n - i,
    {
        let ghost prev = out@;
        let c = s.get_char(i);
        if c == '"' {
            out.push('\\');
            out.push('"');
        } else if c == '\\' {
            out.push('\\');
            out.push('\\');
        } else if c == '\n' {
            out.push('\\');
            out.push('n');
        } else if c == '\r' {
            out.push('\\');
            out.push('r');
        } else if c == '\t' {
            out.push('\\');
            out.push('t');
        } else {
            out.push(c);
        }
        proof {
            assert(s@.take(i + 1).drop_last() =~= s@.take(i as int));
            assert(s@.take(i + 1).last() == s@[i as int]);
            assert(out@ =~= prev + escape_char(s@[i as int]));
            assert(prev + escape_char(s@[i as int]) =~= old(out)@ + escape_str(
                s@.take(i + 1),
            ));
        }
        i = i + 1;
    }
    proof {
        assert(s@.take(n as int) =~= s@);
    }
}

/// Appends the serialized form of one element.
fn append_element(out: &mut String, e: &ChangeElement)
    ensures
        final (out)@ == old(out)@ + spec_serialize_element(*e),
{
    out.append("{\"type\":\"");
    match e.type_ {
        ChangeType::Same => out.append("same\",\"content\":\""),
        ChangeType::Add => out.append("add\",\"content\":\""),
        ChangeType::Remove => out.append("remove\",\"content\":\""),
    }
    append_escaped(out, e.content.as_str());
    out.push('"');
    out.push('}');
    proof {
        assert(out@ =~= old(out)@ + spec_serialize_element(*e));
    }
}

/// Serializes an element sequence into its canonical stored form.
pub fn serialize_elements(elements: &Vec<ChangeElement>) -> (r: String)
    ensures
        r@ == spec_serialize_elements(elements@),
{
    let mut out = String::new();
    out.push('[');
    let mut i: usize = 0;
    proof {
        assert(elements@.take(0) =~= Seq::<ChangeElement>::empty());
        assert(out@ =~= seq!['['] + spec_serialize_inner(elements@.take(0)));
    }
    while i < elements.len()
        invariant
            i <= elements@.len(),
            out@ == seq!['['] + spec_serialize_inner(elements@.take(i as int)),
        decreases elements@.len() - i,
    {
        let ghost prev = out@;
        if i > 0 {
            out.push(',');
        }
        append_element(&mut out, &elements[i]);
        proof {
            assert(elements@.take(i + 1).drop_last() =~= elements@.take(i as int));
            assert(elements@.take(i + 1).last() == elements@[i as int]);
            if i == 0 {
                assert(out@ =~= seq!['['] + spec_serialize_inner(elements@.take(1)));
            } else {
                assert(out@ =~= prev + seq![','] + spec_serialize_element(
                    elements@[i as int],
                ));
                assert(prev + seq![','] + spec_serialize_element(elements@[i as int])
                    =~= seq!['['] + spec_serialize_inner(elements@.take(i + 1)));
            }
        }
        i = i + 1;
    }
    out.push(']');
    proof {
        assert(elements@.take(elements@.len() as int) =~= elements@);
        assert(out@ =~= spec_serialize_elements(elements@));
    }
    out
}

proof fn lemma_split_at(t: Seq<char>, a: Seq<char>, b: Seq<char>, lo: int, hi: int)
    requires
        0 <= lo <= hi <= t.len(),
        t.subrange(lo, hi) == a + b,
    ensures
        t.subrange(lo, lo + a.len() as int) == a,
        t.subrange(lo + a.len() as int, hi) == b,
        hi - lo == a.len() + b.len(),
{
    assert(t.subrange(lo, hi).len() == hi - lo);
    assert((a + b).len() == a.len() + b.len());
    assert(hi - lo == a.len() + b.len());
    assert forall|j: int| 0 <= j < a.len() implies t.subrange(lo, lo + a.len() as int)[j]
        == a[j] by {
        assert(t.subrange(lo, hi)[j] == (a + b)[j]);
        assert(t.subrange(lo, hi)[j] == t[lo + j]);
        assert(t.subrange(lo, lo + a.len() as int)[j] == t[lo + j]);
        assert((a + b)[j] == a[j]);
    }
    assert(t.subrange(lo, lo + a.len() as int) =~= a);
    assert forall|j: int| 0 <= j < b.len() implies t.subrange(
        lo + a.len() as int,
        hi,
    )[j] == b[j] by {
        assert(t.subrange(lo, hi)[a.len() + j] == (a + b)[a.len() + j]);
        assert(t.subrange(lo, hi)[a.len() + j] == t[lo + a.len() + j]);
        assert(t.subrange(lo + a.len() as int, hi)[j] == t[lo + a.len() + j]);
        assert((a + b)[a.len() + j] == b[j]);
    }
    assert(t.subrange(lo + a.len() as int, hi) =~= b);
}

proof fn lemma_join_at(t: Seq<char>, a: Seq<char>, b: Seq<char>, lo: int, mid: int, hi: int)
    requires
        0 <= lo <= mid <= hi <= t.len(),
        t.subrange(lo, mid) == a,
        t.subrange(mid, hi) == b,
    ensures
        t.subrange(lo, hi) == a + b,
{
    assert forall|j: int| 0 <= j < hi - lo implies t.subrange(lo, hi)[j] == (a + b)[j] by {
        if j < mid - lo {
            assert(t.subrange(lo, mid)[j] == a[j]);
        } else {
            assert(t.subrange(mid, hi)[j - (mid - lo)] == b[j - (mid - lo)]);
        }
    }
    assert(t.subrange(lo, hi) =~= a + b);
}

proof fn lemma_escape_str_first(c: Seq<char>)
    requires
        c.len() > 0,
    ensures
        escape_str(c) == escape_char(c[0]) + escape_str(c.skip(1)),
    decreases c.len(),
{
    if c.len() == 1 {
        assert(c.drop_last() =~= Seq::<char>::empty());
        assert(c.skip(1) =~= Seq::<char>::empty());
        assert(Seq::<char>::empty() + escape_char(c.last()) =~= escape_char(c[0])
            + Seq::<char>::empty());
    } else {
        lemma_escape_str_first(c.drop_last());
        assert(c.skip(1).drop_last() =~= c.drop_last().skip(1));
        assert(c.skip(1).last() == c.last());
        assert(escape_str(c.skip(1)) == escape_str(c.skip(1).drop_last()) + escape_char(
            c.skip(1).last(),
        ));
        assert((escape_char(c[0]) + escape_str(c.drop_last().skip(1))) + escape_char(c.last())
            =~= escape_char(c[0]) + (escape_str(c.drop_last().skip(1)) + escape_char(
            c.last(),
        )));
    }
}

/// The serialized elements from position `k` on, comma separated.
pub open spec fn spec_suffix(x: Seq<ChangeElement>, k: int) -> Seq<char>
    decreases x.len() - k,
{
    if k < 0 || k >= x.len() {
        Seq::empty()
    } else if k == x.len() - 1 {
        spec_serialize_element(x[k])
    } else {
        spec_serialize_element(x[k]) + seq![','] + spec_suffix(x, k + 1)
    }
}

proof fn lemma_inner_suffix(x: Seq<ChangeElement>, k: int)
    requires
        0 <= k < x.len(),
    ensures
        spec_serialize_inner(x) == spec_serialize_inner(x.take(k)) + (if k == 0 {
            Seq::<char>::empty()
        } else {
            seq![',']
        }) + spec_suffix(x, k),
    decreases x.len() - k,
{
    if k == x.len() - 1 {
        if x.len() == 1 {
            assert(x.take(0) =~= Seq::<ChangeElement>::empty());
            assert(Seq::<char>::empty() + Seq::<char>::empty() + spec_serialize_element(x[0])
                =~= spec_serialize_element(x[0]));
        } else {
            assert(x.take(k) =~= x.drop_last());
            assert(spec_serialize_inner(x) == spec_serialize_inner(x.drop_last()) + seq![',']
                + spec_serialize_element(x.last()));
            assert(x.last() == x[k]);
        }
    } else {
        lemma_inner_suffix(x, k + 1);
        assert(x.take(k + 1).drop_last() =~= x.take(k));
        assert(x.take(k + 1).last() == x[k]);
        if k == 0 {
            assert(spec_serialize_inner(x.take(1)) == spec_serialize_element(x[0]));
            assert(spec_serialize_element(x[0]) + seq![','] + spec_suffix(x, 1)
                =~= Seq::<char>::empty() + Seq::<char>::empty() + (spec_serialize_element(x[0])
                + seq![','] + spec_suffix(x, 1)));
        } else {
            assert(spec_serialize_inner(x.take(k + 1)) == spec_serialize_inner(x.take(k))
                + seq![','] + spec_serialize_element(x[k]));
            assert((spec_serialize_inner(x.take(k)) + seq![','] + spec_serialize_element(x[k]))
                + seq![','] + spec_suffix(x, k + 1) =~= spec_serialize_inner(x.take(k)) + seq![
                ','
            ] + (spec_serialize_element(x[k]) + seq![','] + spec_suffix(x, k + 1)));
        }
    }
}

/// Matches a literal at a position; on success the position just after it.
/// Succeeds whenever the literal in fact stands there.
fn match_prefix(s: &str, pos: usize, p: &str) -> (r: Option<usize>)
    requires
        pos <= s@.len(),
    ensures
        r matches Some(np) ==> pos + p@.len() == np && np <= s@.len() && s@.subrange(
            pos as int,
            np as int,
        ) == p@,
        pos + p@.len() <= s@.len() && s@.subrange(pos as int, pos + p@.len()) == p@ ==> r
            is Some,
{
    let n = s.unicode_len();
    let m = p.unicode_len();
    if m > n - pos {
        return None;
    }
    let mut j: usize = 0;
    while j < m
        invariant
            j <= m,
            m == p@.len(),
            n == s@.len(),
            pos + m <= n,
            forall|k: int| 0 <= k < j ==> s@[pos + k] == p@[k],
        decreases m - j,
    {
        if s.get_char(pos + j) != p.get_char(j) {
            proof {
                if s@.subrange(pos as int, pos + p@.len()) == p@ {
                    assert(s@.subrange(pos as int, pos + p@.len())[j as int] == s@[pos + j]);
                    assert(false);
                }
            }
            return None;
        }
        j = j + 1;
    }
    proof {
        assert(s@.subrange(pos as int, (pos + m) as int) =~= p@);
    }
    Some(pos + m)
}

/// Scans a JSON string body from just after its opening quote to just
/// after its closing quote, undoing the escapes.  Only the canonical
/// escaped form is accepted, and a body in that form is always accepted.
fn scan_string(s: &str, pos: usize, expected: Ghost<Option<(Seq<char>, int)>>) -> (r: Result<
    (String, usize),
    CodemkinError,
>)
    requires
        pos <= s@.len(),
        expected@ matches Some(p) ==> pos < p.1 <= s@.len() && s@.subrange(pos as int, p.1)
            == escape_str(p.0) + seq!['"'],
    ensures
        r matches Ok(q) ==> pos < q.1 <= s@.len() && s@.subrange(pos as int, q.1 as int)
            == escape_str(q.0@) + seq!['"'],
        r matches Err(e) ==> e == CodemkinError::CorruptHistory,
        expected@ matches Some(p) ==> (r matches Ok(q) && q.0@ == p.0 && q.1 == p.1),
{
    let n = s.unicode_len();
    let mut content = String::new();
    let mut i: usize = pos;
    let ghost mut rest: Seq<char> = match expected@ {
        Some(p) => p.0,
        None => Seq::empty(),
    };
    proof {
        assert(escape_str(content@) =~= s@.subrange(pos as int, pos as int));
        if let Some(p) = expected@ {
            assert(content@ + rest =~= p.0);
        }
    }
    while i < n
        invariant
            pos <= i <= n,
            n == s@.len(),
            escape_str(content@) == s@.subrange(pos as int, i as int),
            expected@ matches Some(p) ==> {
                &&& content@ + rest == p.0
                &&& i < p.1 <= n
                &&& s@.subrange(i as int, p.1) == escape_str(rest) + seq!['"']
            },
        decreases n - i,
    {
        let ghost prev = content@;
        let c = s.get_char(i);
        proof {
            if let Some(p) = expected@ {
                if rest.len() > 0 {
                    lemma_escape_str_first(rest);
                    assert(s@.subrange(i as int, p.1)[0] == s@[i as int]);
                    assert(s@[i as int] == escape_char(rest[0])[0]);
                } else {
                    assert(escape_str(rest) =~= Seq::<char>::empty());
                    assert(s@.subrange(i as int, p.1) =~= seq!['"']);
                    assert(s@.subrange(i as int, p.1)[0] == s@[i as int]);
                    assert(s@[i as int] == '"');
                    assert(p.1 == i + 1);
                }
            }
        }
        if c == '"' {
            proof {
                assert(s@.subrange(pos as int, (i + 1) as int) =~= s@.subrange(
                    pos as int,
                    i as int,
                ) + seq!['"']);
                if let Some(p) = expected@ {
                    if rest.len() > 0 {
                        assert(false);
                    }
                    assert(content@ + rest =~= content@);
                }
            }
            return Ok((content, i + 1));
        } else if c == '\\' {
            proof {
                if let Some(p) = expected@ {
                    if rest.len() == 0 {
                        assert(false);
                    }
                    assert(escape_char(rest[0])[0] == '\\');
                    assert(escape_char(rest[0]).len() == 2);
                    assert(s@.subrange(i as int, p.1).len() >= 3);
                    assert(s@.subrange(i as int, p.1)[1] == s@[i + 1]);
                    assert(s@[i + 1] == escape_char(rest[0])[1]);
                }
            }
            if i + 1 >= n {
                proof {
                    if let Some(p) = expected@ {
                        assert(false);
                    }
                }
                return Err(CodemkinError::CorruptHistory);
            }
            let code = s.get_char(i + 1);
            let unescaped: char = match code {
                '"' => '"',
                '\\' => '\\',
                'n' => '\n',
                'r' => '\r',
                't' => '\t',
                _ => {
                    proof {
                        if let Some(p) = expected@ {
                            assert(false);
                        }
                    }
                    return Err(CodemkinError::CorruptHistory);
                },
            };
            content.push(unescaped);
            proof {
                assert(content@.drop_last() =~= prev);
                assert(escape_char(unescaped) =~= seq![s@[i as int], s@[i + 1]]);
                assert(s@.subrange(pos as int, (i + 2) as int) =~= s@.subrange(
                    pos as int,
                    i as int,
                ) + seq![s@[i as int], s@[i + 1]]);
                assert(escape_str(content@) =~= s@.subrange(pos as int, (i + 2) as int));
                if let Some(p) = expected@ {
                    lemma_escape_str_first(rest);
                    assert(unescaped == rest[0]);
                    assert(content@ =~= prev.push(rest[0]));
                    assert(rest =~= seq![rest[0]] + rest.skip(1));
                    assert(prev.push(rest[0]) + rest.skip(1) =~= prev + rest);
                    assert(escape_char(rest[0]) + escape_str(rest.skip(1)) + seq!['"']
                        =~= escape_char(rest[0]) + (escape_str(rest.skip(1)) + seq!['"']));
                    lemma_split_at(
                        s@,
                        escape_char(rest[0]),
                        escape_str(rest.skip(1)) + seq!['"'],
                        i as int,
                        p.1,
                    );
                    assert(s@.subrange((i + 2) as int, p.1) == escape_str(rest.skip(1))
                        + seq!['"']);
                    rest = rest.skip(1);
                }
            }
            i = i + 2;
        } else if c == '\n' || c == '\r' || c == '\t' {
            proof {
                if let Some(p) = expected@ {
                    assert(false);
                }
            }
            return Err(CodemkinError::CorruptHistory);
        } else {
            content.push(c);
            proof {
                assert(content@.drop_last() =~= prev);
                assert(escape_char(c) =~= seq![s@[i as int]]);
                assert(s@.subrange(pos as int, (i + 1) as int) =~= s@.subrange(
                    pos as int,
                    i as int,
                ) + seq![s@[i as int]]);
                assert(escape_str(content@) =~= s@.subrange(pos as int, (i + 1) as int));
                if let Some(p) = expected@ {
                    if rest.len() == 0 {
                        assert(false);
                    }
                    lemma_escape_str_first(rest);
                    assert(escape_char(rest[0]) =~= seq![rest[0]]);
                    assert(c == rest[0]);
                    assert(content@ =~= prev.push(rest[0]));
                    assert(rest =~= seq![rest[0]] + rest.skip(1));
                    assert(prev.push(rest[0]) + rest.skip(1) =~= prev + rest);
                    assert(escape_char(rest[0]) + escape_str(rest.skip(1)) + seq!['"']
                        =~= escape_char(rest[0]) + (escape_str(rest.skip(1)) + seq!['"']));
                    lemma_split_at(
                        s@,
                        escape_char(rest[0]),
                        escape_str(rest.skip(1)) + seq!['"'],
                        i as int,
                        p.1,
                    );
                    assert(s@.subrange((i + 1) as int, p.1) == escape_str(rest.skip(1))
                        + seq!['"']);
                    rest = rest.skip(1);
                }
            }
            i = i + 1;
        }
    }
    proof {
        if let Some(p) = expected@ {
            assert(false);
        }
    }
    Err(CodemkinError::CorruptHistory)
}

/// Parses one serialized element; on success also the position just
/// after it.  An element in canonical form is always accepted.
#[verifier::rlimit(100)]
fn parse_element(s: &str, pos: usize, expected: Ghost<Option<(ChangeElement, int)>>) -> (r:
    Result<(ChangeElement, usize), CodemkinError>)
    requires
        pos <= s@.len(),
        expected@ matches Some(p) ==> pos < p.1 <= s@.len() && s@.subrange(pos as int, p.1)
            == spec_serialize_element(p.0),
    ensures
        r matches Ok(q) ==> pos < q.1 <= s@.len() && s@.subrange(pos as int, q.1 as int)
            == spec_serialize_element(q.0),
        r matches Err(e) ==> e == CodemkinError::CorruptHistory,
        expected@ matches Some(p) ==> (r matches Ok(q) && q.0.type_ == p.0.type_
            && q.0.content@ == p.0.content@ && q.1 == p.1),
{
    let n = s.unicode_len();
    proof {
        reveal_strlit("{\"type\":\"");
        reveal_strlit("same\",\"content\":\"");
        reveal_strlit("add\",\"content\":\"");
        reveal_strlit("remove\",\"content\":\"");
        if let Some(p) = expected@ {
            let lit = "{\"type\":\""@;
            let mid = tag_mid(p.0.type_);
            let esc = escape_str(p.0.content@);
            let midlen = mid.len() as int;
            let esclen = esc.len() as int;
            assert(lit.len() == 9);
            assert(spec_serialize_element(p.0).len() == 9 + midlen + esclen + 2);
            assert(p.1 - pos == 9 + midlen + esclen + 2);
            lemma_split_at(s@, (lit + mid) + esc, seq!['"', '}'], pos as int, p.1);
            lemma_split_at(s@, lit + mid, esc, pos as int, pos + 9 + midlen + esclen);
            lemma_split_at(s@, lit, mid, pos as int, pos + 9 + midlen);
            assert(seq!['"', '}'] =~= seq!['"'] + seq!['}']);
            lemma_split_at(s@, seq!['"'], seq!['}'], p.1 - 2, p.1);
            assert(s@.subrange(p.1 - 2, p.1 - 1)[0] == s@[p.1 - 2]);
            assert(s@.subrange(p.1 - 1, p.1)[0] == s@[p.1 - 1]);
            assert(s@[p.1 - 2] == '"');
            assert(s@[p.1 - 1] == '}');
            lemma_join_at(s@, esc, seq!['"'], pos + 9 + midlen, p.1 - 2, p.1 - 1);
            assert(s@.subrange(pos as int, pos + 9) == lit);
            assert(s@.subrange(pos + 9, pos + 9 + midlen) == mid);
            assert(s@.subrange(pos + 9 + midlen, p.1 - 1) == esc + seq!['"']);
        }
    }
    let p1 = match match_prefix(s, pos, "{\"type\":\"") {
        Some(q) => q,
        None => {
            proof {
                if let Some(p) = expected@ {
                    assert(false);
                }
            }
            return Err(CodemkinError::CorruptHistory);
        },
    };
    let (type_, p2): (ChangeType, usize) = if let Some(q) = match_prefix(
        s,
        p1,
        "same\",\"content\":\"",
    ) {
        proof {
            if let Some(p) = expected@ {
                if !(p.0.type_ is Same) {
                    assert(s@[p1 as int] == tag_mid(p.0.type_)[0]);
                    assert(false);
                }
            }
        }
        (ChangeType::Same, q)
    } else if let Some(q) = match_prefix(s, p1, "add\",\"content\":\"") {
        proof {
            if let Some(p) = expected@ {
                if !(p.0.type_ is Add) {
                    assert(s@[p1 as int] == tag_mid(p.0.type_)[0]);
                    assert(s@.subrange(p1 as int, p1 + "add\",\"content\":\""@.len())[0]
                        == s@[p1 as int]);
                    assert(false);
                }
            }
        }
        (ChangeType::Add, q)
    } else if let Some(q) = match_prefix(s, p1, "remove\",\"content\":\"") {
        proof {
            if let Some(p) = expected@ {
                if !(p.0.type_ is Remove) {
                    assert(s@[p1 as int] == tag_mid(p.0.type_)[0]);
                    assert(s@.subrange(p1 as int, p1 + "remove\",\"content\":\""@.len())[0]
                        == s@[p1 as int]);
                    assert(false);
                }
            }
        }
        (ChangeType::Remove, q)
    } else {
        proof {
            if let Some(p) = expected@ {
                assert(false);
            }
        }
        return Err(CodemkinError::CorruptHistory);
    };
    proof {
        if let Some(p) = expected@ {
            assert(type_ == p.0.type_);
            assert(p2 == pos + 9 + tag_mid(p.0.type_).len());
        }
    }
    let (content, p3) = match scan_string(
        s,
        p2,
        Ghost(
            match expected@ {
                Some(p) => Some((p.0.content@, p.1 - 1)),
                None => None,
            },
        ),
    ) {
        Ok(x) => x,
        Err(e) => {
            return Err(e);
        },
    };
    if p3 >= n {
        proof {
            if let Some(p) = expected@ {
                assert(false);
            }
        }
        return Err(CodemkinError::CorruptHistory);
    }
    if s.get_char(p3) != '}' {
        proof {
            if let Some(p) = expected@ {
                assert(false);
            }
        }
        return Err(CodemkinError::CorruptHistory);
    }
    let e = ChangeElement { type_, content };
    proof {
        assert(s@.subrange(pos as int, (p3 + 1) as int) =~= s@.subrange(pos as int, p1 as int)
            + s@.subrange(p1 as int, p2 as int) + s@.subrange(p2 as int, p3 as int) + seq![
            s@[p3 as int],
        ]);
        assert(s@.subrange(pos as int, (p3 + 1) as int) =~= spec_serialize_element(e));
    }
    Ok((e, p3 + 1))
}

/// Parses the canonical stored form of an element sequence.  Whatever it
/// accepts serializes back to the very text it read, and every canonical
/// text is accepted; any other text is corrupt history, surfaced and
/// never repaired.
#[verifier::rlimit(100)]
pub fn parse_elements(s: &str) -> (r: Result<Vec<ChangeElement>, CodemkinError>)
    ensures
        r matches Ok(v) ==> s@ == spec_serialize_elements(v@),
        r matches Err(e) ==> e == CodemkinError::CorruptHistory,
        (exists|x: Seq<ChangeElement>| s@ == spec_serialize_elements(x)) ==> r is Ok,
{
    let ghost has_image = exists|x: Seq<ChangeElement>| s@ == spec_serialize_elements(x);
    let ghost w: Seq<ChangeElement> = choose|x: Seq<ChangeElement>|
        s@ == spec_serialize_elements(x);
    let n = s.unicode_len();
    proof {
        reveal_strlit("{\"type\":\"");
        if has_image {
            assert(s@.len() == 2 + spec_serialize_inner(w).len());
            assert(s@[0] == '[');
            assert(s@[s@.len() - 1] == ']');
            if w.len() > 0 {
                lemma_inner_suffix(w, 0);
                assert(spec_serialize_inner(w.take(0)) =~= Seq::<char>::empty());
                assert(Seq::<char>::empty() + Seq::<char>::empty() + spec_suffix(w, 0)
                    =~= spec_suffix(w, 0));
                assert(s@.subrange(1, n as int) =~= spec_suffix(w, 0) + seq![']']);
                assert(s@[1] == spec_serialize_element(w[0])[0]);
                assert(s@[1] == '{');
            } else {
                assert(spec_serialize_inner(w) =~= Seq::<char>::empty());
                assert(s@.len() == 2);
                assert(s@[1] == ']');
            }
        }
    }
    if n == 0 {
        proof {
            if has_image {
                assert(false);
            }
        }
        return Err(CodemkinError::CorruptHistory);
    }
    if s.get_char(0) != '[' {
        proof {
            if has_image {
                assert(false);
            }
        }
        return Err(CodemkinError::CorruptHistory);
    }
    let mut v: Vec<ChangeElement> = Vec::new();
    let mut pos: usize = 1;
    if pos < n && s.get_char(pos) == ']' {
        if pos + 1 == n {
            proof {
                assert(v@.take(0) =~= Seq::<ChangeElement>::empty());
                assert(s@ =~= seq!['['] + spec_serialize_inner(v@) + seq![']']);
            }
            return Ok(v);
        } else {
            proof {
                if has_image {
                    assert(false);
                }
            }
            return Err(CodemkinError::CorruptHistory);
        }
    }
    proof {
        assert(s@.subrange(1, 1) =~= Seq::<char>::empty());
        if has_image {
            assert(w.len() > 0);
        }
    }
    while pos < n
        invariant
            1 <= pos <= n,
            n == s@.len(),
            s@[0] == '[',
            s@.subrange(1, pos as int) == spec_serialize_inner(v@) + (if v@.len() == 0 {
                Seq::<char>::empty()
            } else {
                seq![',']
            }),
            has_image == (exists|x: Seq<ChangeElement>| s@ == spec_serialize_elements(x)),
            has_image ==> s@ == spec_serialize_elements(w),
            has_image ==> {
                &&& 0 < w.len()
                &&& (v@.len() as int) < w.len()
                &&& s@.subrange(pos as int, n as int) == spec_suffix(w, v@.len() as int)
                    + seq![']']
            },
        decreases n - pos,
    {
        let ghost k = v@.len() as int;
        let ghost el = spec_serialize_element(w[k]).len() as int;
        let ghost sk = spec_suffix(w, k).len() as int;
        proof {
            reveal_strlit("{\"type\":\"");
            if has_image {
                assert(spec_serialize_element(w[k]).len() == 9 + tag_mid(w[k].type_).len()
                    + escape_str(w[k].content@).len() + 2);
                assert(el >= 9);
                lemma_split_at(s@, spec_suffix(w, k), seq![']'], pos as int, n as int);
                if k == w.len() - 1 {
                    assert(spec_suffix(w, k) == spec_serialize_element(w[k]));
                    assert(sk == el);
                } else {
                    assert(spec_suffix(w, k) == spec_serialize_element(w[k]) + seq![',']
                        + spec_suffix(w, k + 1));
                    assert(spec_serialize_element(w[k]) + seq![','] + spec_suffix(w, k + 1)
                        =~= spec_serialize_element(w[k]) + (seq![','] + spec_suffix(
                        w,
                        k + 1,
                    )));
                    lemma_split_at(
                        s@,
                        spec_serialize_element(w[k]),
                        seq![','] + spec_suffix(w, k + 1),
                        pos as int,
                        pos + sk,
                    );
                }
                assert(s@.subrange(pos as int, pos + el) == spec_serialize_element(w[k]));
                assert(pos + el <= n);
            }
        }
        let (e, np) = match parse_element(
            s,
            pos,
            Ghost(
                if has_image {
                    Some((w[k], pos + spec_serialize_element(w[k]).len() as int))
                } else {
                    None
                },
            ),
        ) {
            Ok(x) => x,
            Err(er) => {
                proof {
                    if has_image {
                        assert(false);
                    }
                }
                return Err(er);
            },
        };
        let ghost prev = v@;
        v.push(e);
        proof {
            assert(v@.drop_last() =~= prev);
            assert(v@.last() == e);
            assert(s@.subrange(1, np as int) =~= s@.subrange(1, pos as int) + s@.subrange(
                pos as int,
                np as int,
            ));
            if prev.len() == 0 {
                assert(spec_serialize_inner(v@) == spec_serialize_element(e));
                assert(s@.subrange(1, np as int) =~= spec_serialize_inner(v@));
            } else {
                assert(spec_serialize_inner(v@) == spec_serialize_inner(prev) + seq![',']
                    + spec_serialize_element(e));
                assert(s@.subrange(1, np as int) =~= spec_serialize_inner(v@));
            }
            if has_image {
                assert(spec_serialize_element(e) == spec_serialize_element(w[k]));
                assert(np == pos + el);
                if k + 1 == w.len() {
                    assert(s@.subrange(np as int, n as int) == seq![']']);
                    assert(s@.subrange(np as int, n as int)[0] == s@[np as int]);
                    assert(s@[np as int] == ']');
                    assert(np + 1 == n);
                } else {
                    lemma_split_at(
                        s@,
                        seq![','],
                        spec_suffix(w, k + 1),
                        pos + el,
                        pos + sk,
                    );
                    assert(s@.subrange(np as int, np + 1)[0] == s@[np as int]);
                    assert(s@[np as int] == ',');
                    lemma_join_at(
                        s@,
                        spec_suffix(w, k + 1),
                        seq![']'],
                        np + 1,
                        pos + sk,
                        n as int,
                    );
                    assert(s@.subrange((np + 1) as int, n as int) == spec_suffix(w, k + 1)
                        + seq![']']);
                }
            }
        }
        pos = np;
        if pos >= n {
            proof {
                if has_image {
                    assert(false);
                }
            }
            return Err(CodemkinError::CorruptHistory);
        }
        let c = s.get_char(pos);
        if c == ']' {
            if pos + 1 == n {
                proof {
                    assert(s@ =~= seq![s@[0]] + s@.subrange(1, pos as int) + seq![
                        s@[pos as int],
                    ]);
                    assert(s@ =~= spec_serialize_elements(v@));
                }
                return Ok(v);
            } else {
                proof {
                    if has_image {
                        assert(false);
                    }
                }
                return Err(CodemkinError::CorruptHistory);
            }
        } else if c == ',' {
            proof {
                assert(s@.subrange(1, (pos + 1) as int) =~= s@.subrange(1, pos as int) + seq![
                    s@[pos as int],
                ]);
                if has_image {
                    assert(s@.subrange((pos + 1) as int, n as int) == spec_suffix(w, k + 1)
                        + seq![']']);
                }
            }
            pos = pos + 1;
        } else {
            proof {
                if has_image {
                    assert(false);
                }
            }
            return Err(CodemkinError::CorruptHistory);
        }
    }
    proof {
        if has_image {
            assert(spec_suffix(w, v@.len() as int).len() >= 0);
            assert(false);
        }
    }
    Err(CodemkinError::CorruptHistory)
}

} // verus!
