use vstd::prelude::*;
use vstd::string::*;
use crate::record::{attrs_view, Record, RecordView};

verus! {

/// How one character of a string value is written on the wire: a quote and a
/// backslash get a backslash in front, every other character stands as it is.
pub open spec fn esc_char(c: char) -> Seq<char> {
    if c == '"' || c == '\\' {
        seq!['\\', c]
    } else {
        seq![c]
    }
}

pub open spec fn esc(s: Seq<char>) -> Seq<char>
    decreases s.len(),
{
    if s.len() == 0 {
        Seq::empty()
    } else {
        esc_char(s[0]) + esc(s.skip(1))
    }
}

pub open spec fn quoted(s: Seq<char>) -> Seq<char> {
    seq!['"'] + esc(s) + seq!['"']
}

pub open spec fn pair_text(p: (Seq<char>, Seq<char>)) -> Seq<char> {
    quoted(p.0) + seq![':'] + quoted(p.1)
}

/// The attribute pairs, separated by commas.
pub open spec fn pairs_text(a: Seq<(Seq<char>, Seq<char>)>) -> Seq<char>
    decreases a.len(),
{
    if a.len() == 0 {
        Seq::empty()
    } else if a.len() == 1 {
        pair_text(a[0])
    } else {
        pair_text(a[0]) + seq![','] + pairs_text(a.skip(1))
    }
}

#[verifier::opaque]
pub open spec fn head_text() -> Seq<char> {
    seq!['{', '"', 'k', 'e', 'y', '"', ':']
}

#[verifier::opaque]
pub open spec fn mid_text() -> Seq<char> {
    seq![',', '"', 'a', 't', 't', 'r', 'i', 'b', 'u', 't', 'e', 's', '"', ':', '{']
}

/// The wire document of a record: `{"key":"..","attributes":{"..":"..",..}}`.
pub open spec fn encode(v: RecordView) -> Seq<char> {
    head_text() + quoted(v.key) + mid_text() + pairs_text(v.attributes) + seq!['}', '}']
}

pub open spec fn prepend<A>(a: Seq<A>, o: Option<(Seq<A>, int)>) -> Option<(Seq<A>, int)> {
    match o {
        Some((x, j)) => Some((a + x, j)),
        None => None,
    }
}

/// Reads the body of a string value that starts at `i`, just after its
/// opening quote; gives the value and the position after the closing quote.
pub open spec fn parse_chars(t: Seq<char>, i: int) -> Option<(Seq<char>, int)>
    decreases t.len() - i,
{
    if i < 0 || i >= t.len() {
        None
    } else if t[i] == '"' {
        Some((Seq::empty(), i + 1))
    } else if t[i] == '\\' {
        if i + 1 >= t.len() || (t[i + 1] != '"' && t[i + 1] != '\\') {
            None
        } else {
            prepend(seq![t[i + 1]], parse_chars(t, i + 2))
        }
    } else {
        prepend(seq![t[i]], parse_chars(t, i + 1))
    }
}

pub open spec fn parse_quoted(t: Seq<char>, i: int) -> Option<(Seq<char>, int)> {
    if 0 <= i < t.len() && t[i] == '"' {
        parse_chars(t, i + 1)
    } else {
        None
    }
}

pub open spec fn parse_pair(t: Seq<char>, i: int) -> Option<((Seq<char>, Seq<char>), int)> {
    match parse_quoted(t, i) {
        Some((k, j)) => if 0 <= j < t.len() && t[j] == ':' {
            match parse_quoted(t, j + 1) {
                Some((v, m)) => Some(((k, v), m)),
                None => None,
            }
        } else {
            None
        },
        None => None,
    }
}

/// Reads one or more pairs separated by commas and the closing brace after
/// them; gives the pairs and the position after that brace.
pub open spec fn parse_pairs(t: Seq<char>, i: int) -> Option<(Seq<(Seq<char>, Seq<char>)>, int)>
    decreases t.len() - i,
{
    match parse_pair(t, i) {
        Some((p, j)) => if j <= i || j >= t.len() {
            None
        } else if t[j] == '}' {
            Some((seq![p], j + 1))
        } else if t[j] == ',' {
            prepend(seq![p], parse_pairs(t, j + 1))
        } else {
            None
        },
        None => None,
    }
}

/// What a wire document decodes to: a valid record, not yet placed on the bus.
pub open spec fn decode(t: Seq<char>) -> Option<RecordView> {
    if t.len() >= 7 && t.take(7) == head_text() {
        match parse_quoted(t, 7) {
            Some((k, j)) => if j + 15 <= t.len() && t.subrange(j, j + 15) == mid_text() {
                match parse_pairs(t, j + 15) {
                    Some((a, m)) => if k.len() > 0 && m + 1 == t.len() && t[m] == '}' {
                        Some(RecordView { key: k, attributes: a, origin_offset: None })
                    } else {
                        None
                    },
                    None => None,
                }
            } else {
                None
            },
            None => None,
        }
    } else {
        None
    }
}

pub proof fn lemma_esc_concat(a: Seq<char>, b: Seq<char>)
    ensures
        esc(a + b) == esc(a) + esc(b),
    decreases a.len(),
{
    if a.len() == 0 {
        assert(a + b =~= b);
        assert(esc(a) + esc(b) =~= esc(b));
    } else {
        assert((a + b).skip(1) =~= a.skip(1) + b);
        lemma_esc_concat(a.skip(1), b);
        assert((a + b)[0] == a[0]);
        assert(esc(a + b) =~= esc(a) + esc(b));
    }
}

pub proof fn lemma_esc_single(c: char)
    ensures
        esc(seq![c]) == esc_char(c),
{
    assert(seq![c].skip(1) =~= Seq::<char>::empty());
    assert(esc(seq![c]) == esc_char(c) + esc(Seq::<char>::empty()));
    assert(esc_char(c) + Seq::<char>::empty() =~= esc_char(c));
}

pub proof fn lemma_pairs_push(a: Seq<(Seq<char>, Seq<char>)>, p: (Seq<char>, Seq<char>))
    ensures
        pairs_text(a.push(p)) == if a.len() == 0 {
            pair_text(p)
        } else {
            pairs_text(a) + seq![','] + pair_text(p)
        },
    decreases a.len(),
{
    if a.len() == 0 {
    } else if a.len() == 1 {
        assert(a.push(p).skip(1) =~= seq![p]);
        assert(pairs_text(seq![p]) == pair_text(p));
    } else {
        assert(a.push(p).skip(1) =~= a.skip(1).push(p));
        lemma_pairs_push(a.skip(1), p);
        assert(pairs_text(a.push(p)) =~= pairs_text(a) + seq![','] + pair_text(p));
    }
}

/// Appends the escaped characters of `s`.
fn push_escaped(out: &mut String, s: &str)
    ensures
        final(out)@ == old(out)@ + esc(s@),
{
    let n = s.unicode_len();
    let mut i: usize = 0;
    proof {
        assert(s@.take(0) =~= Seq::<char>::empty());
        assert(out@ + esc(Seq::<char>::empty()) =~= out@);
    }
    while i < n
        invariant
            n == s@.len(),
            i <= n,
            out@ == old(out)@ + esc(s@.take(i as int)),
        decreases n - i,
    {
        let c = s.get_char(i);
        proof {
            assert(s@.take(i + 1) =~= s@.take(i as int) + seq![c]);
            lemma_esc_concat(s@.take(i as int), seq![c]);
            lemma_esc_single(c);
        }
        if c == '"' {
            proof { reveal_strlit("\\\""); }
            out.append("\\\"");
            assert("\\\""@ =~= esc_char(c));
        } else if c == '\\' {
            proof { reveal_strlit("\\\\"); }
            out.append("\\\\");
            assert("\\\\"@ =~= esc_char(c));
        } else {
            let one = s.substring_char(i, i + 1);
            out.append(one);
            assert(one@ =~= esc_char(c));
        }
        i = i + 1;
        assert(out@ =~= old(out)@ + esc(s@.take(i as int)));
    }
    assert(s@.take(n as int) =~= s@);
}

fn push_quoted(out: &mut String, s: &str)
    ensures
        final(out)@ == old(out)@ + quoted(s@),
{
    proof { reveal_strlit("\""); }
    out.append("\"");
    push_escaped(out, s);
    out.append("\"");
    assert(out@ =~= old(out)@ + quoted(s@));
}

/// Appends the attribute pairs, separated by commas.
pub fn push_pairs(out: &mut String, attributes: &Vec<(String, String)>)
    ensures
        final(out)@ == old(out)@ + pairs_text(attrs_view(attributes@)),
{
    let ghost pre = out@;
    let ghost a = attrs_view(attributes@);
    let n = attributes.len();
    let mut i: usize = 0;
    assert(a.take(0) =~= Seq::<(Seq<char>, Seq<char>)>::empty());
    assert(pre + pairs_text(a.take(0)) =~= pre);
    while i < n
        invariant
            n == attributes@.len(),
            a == attrs_view(attributes@),
            a.len() == n,
            i <= n,
            pre == old(out)@,
            out@ == pre + pairs_text(a.take(i as int)),
        decreases n - i,
    {
        if i > 0 {
            proof { reveal_strlit(","); }
            out.append(",");
        }
        push_quoted(out, attributes[i].0.as_str());
        proof { reveal_strlit(":"); }
        out.append(":");
        push_quoted(out, attributes[i].1.as_str());
        proof {
            assert(a[i as int] == (attributes@[i as int].0@, attributes@[i as int].1@));
            assert(a.take(i + 1) =~= a.take(i as int).push(a[i as int]));
            lemma_pairs_push(a.take(i as int), a[i as int]);
        }
        i = i + 1;
        assert(out@ =~= pre + pairs_text(a.take(i as int)));
    }
    assert(a.take(n as int) =~= a);
}

/// Writes a record as its wire document. The bus position is not part of it.
pub fn serialize(r: &Record) -> (out: String)
    ensures
        out@ == encode(r@),
{
    let mut out = String::new();
    proof { reveal_strlit("{\"key\":"); }
    out.append("{\"key\":");
    assert(out@ =~= head_text()) by { reveal(head_text); }
    push_quoted(&mut out, r.key.as_str());
    proof { reveal_strlit(",\"attributes\":{"); }
    out.append(",\"attributes\":{");
    assert(out@ =~= head_text() + quoted(r.key@) + mid_text()) by { reveal(mid_text); }
    push_pairs(&mut out, &r.attributes);
    proof { reveal_strlit("}}"); }
    out.append("}}");
    assert(out@ =~= encode(r@));
    out
}

#[derive(Debug, Clone, Copy, PartialEq, Eq, Structural)]
pub enum DecodeError {
    /// The text is not the wire document of any valid record.
    Malformed,
}

/// Reads a string body from `i`, just after its opening quote.
fn read_chars(t: &str, n: usize, i: usize) -> (r: Option<(String, usize)>)
    requires
        n == t@.len(),
    ensures
        match r {
            Some((x, j)) => parse_chars(t@, i as int) == Some((x@, j as int)),
            None => parse_chars(t@, i as int) is None,
        },
{
    let mut acc = String::new();
    let mut k: usize = i;
    assert(prepend(acc@, parse_chars(t@, k as int)) =~= parse_chars(t@, i as int)) by {
        match parse_chars(t@, k as int) {
            Some((x, j)) => { assert(acc@ + x =~= x); },
            None => {},
        }
    }
    loop
        invariant
            n == t@.len(),
            i <= k,
            parse_chars(t@, i as int) == prepend(acc@, parse_chars(t@, k as int)),
        decreases n - k,
    {
        if k >= n {
            return None;
        }
        let c = t.get_char(k);
        if c == '"' {
            assert(acc@ + Seq::<char>::empty() =~= acc@);
            return Some((acc, k + 1));
        }
        let ghost old_acc = acc@;
        if c == '\\' {
            if k + 1 >= n {
                return None;
            }
            let d = t.get_char(k + 1);
            if d != '"' && d != '\\' {
                return None;
            }
            let one = t.substring_char(k + 1, k + 2);
            acc.append(one);
            proof {
                assert(one@ =~= seq![d]);
                match parse_chars(t@, k + 2) {
                    Some((x, j)) => { assert(old_acc + (seq![d] + x) =~= acc@ + x); },
                    None => {},
                }
            }
            k = k + 2;
        } else {
            let one = t.substring_char(k, k + 1);
            acc.append(one);
            proof {
                assert(one@ =~= seq![c]);
                match parse_chars(t@, k + 1) {
                    Some((x, j)) => { assert(old_acc + (seq![c] + x) =~= acc@ + x); },
                    None => {},
                }
            }
            k = k + 1;
        }
    }
}

fn read_quoted(t: &str, n: usize, i: usize) -> (r: Option<(String, usize)>)
    requires
        n == t@.len(),
    ensures
        match r {
            Some((x, j)) => parse_quoted(t@, i as int) == Some((x@, j as int)),
            None => parse_quoted(t@, i as int) is None,
        },
{
    if i < n && t.get_char(i) == '"' {
        read_chars(t, n, i + 1)
    } else {
        None
    }
}

fn read_pair(t: &str, n: usize, i: usize) -> (r: Option<((String, String), usize)>)
    requires
        n == t@.len(),
    ensures
        match r {
            Some((p, j)) => parse_pair(t@, i as int) == Some(((p.0@, p.1@), j as int)),
            None => parse_pair(t@, i as int) is None,
        },
{
    match read_quoted(t, n, i) {
        Some((k, j)) => {
            if j < n && t.get_char(j) == ':' {
                match read_quoted(t, n, j + 1) {
                    Some((v, m)) => Some(((k, v), m)),
                    None => None,
                }
            } else {
                None
            }
        },
        None => None,
    }
}

fn read_pairs(t: &str, n: usize, i: usize) -> (r: Option<(Vec<(String, String)>, usize)>)
    requires
        n == t@.len(),
    ensures
        match r {
            Some((a, j)) => parse_pairs(t@, i as int) == Some((attrs_view(a@), j as int)),
            None => parse_pairs(t@, i as int) is None,
        },
{
    let mut acc: Vec<(String, String)> = Vec::new();
    let mut k: usize = i;
    assert(prepend(attrs_view(acc@), parse_pairs(t@, k as int)) =~= parse_pairs(t@, i as int)) by {
        assert(attrs_view(acc@) =~= Seq::<(Seq<char>, Seq<char>)>::empty());
        match parse_pairs(t@, k as int) {
            Some((x, j)) => { assert(attrs_view(acc@) + x =~= x); },
            None => {},
        }
    }
    loop
        invariant
            n == t@.len(),
            parse_pairs(t@, i as int) == prepend(attrs_view(acc@), parse_pairs(t@, k as int)),
        decreases n - k,
    {
        let ghost old_acc = attrs_view(acc@);
        match read_pair(t, n, k) {
            None => {
                return None;
            },
            Some((p, j)) => {
                if j <= k || j >= n {
                    return None;
                }
                let ghost pv = (p.0@, p.1@);
                let c = t.get_char(j);
                acc.push(p);
                assert(attrs_view(acc@) =~= old_acc.push(pv));
                if c == '}' {
                    assert(old_acc + seq![pv] =~= attrs_view(acc@));
                    return Some((acc, j + 1));
                } else if c == ',' {
                    proof {
                        match parse_pairs(t@, j + 1) {
                            Some((x, m)) => {
                                assert(old_acc + (seq![pv] + x) =~= attrs_view(acc@) + x);
                            },
                            None => {},
                        }
                    }
                    k = j + 1;
                } else {
                    return None;
                }
            },
        }
    }
}

fn matches_at(t: &str, n: usize, i: usize, lit: &str) -> (r: bool)
    requires
        n == t@.len(),
        i <= n,
    ensures
        r == (i + lit@.len() <= n && t@.subrange(i as int, i + lit@.len()) == lit@),
{
    let m = lit.unicode_len();
    if m > n - i {
        return false;
    }
    let mut k: usize = 0;
    while k < m
        invariant
            m == lit@.len(),
            i + m <= n,
            n == t@.len(),
            k <= m,
            t@.subrange(i as int, i + k) == lit@.take(k as int),
        decreases m - k,
    {
        if t.get_char(i + k) != lit.get_char(k) {
            assert(t@.subrange(i as int, i + m)[k as int] != lit@[k as int]);
            return false;
        }
        k = k + 1;
        assert(t@.subrange(i as int, i + k) =~= lit@.take(k as int));
    }
    assert(lit@.take(m as int) =~= lit@);
    true
}

/// Reads a wire document back into a record; the record is valid and has no
/// bus position. Exactly the documents that `serialize` writes for valid
/// records are accepted.
pub fn deserialize(t: &str) -> (r: Result<Record, DecodeError>)
    ensures
        match r {
            Ok(rec) => decode(t@) == Some(rec@) && t@ == encode(rec@),
            Err(e) => decode(t@) is None && e == DecodeError::Malformed,
        },
{
    let n = t.unicode_len();
    proof { reveal_strlit("{\"key\":"); }
    if !matches_at(t, n, 0, "{\"key\":") {
        assert("{\"key\":"@ =~= head_text()) by { reveal(head_text); }
        if n >= 7 {
            assert(t@.subrange(0, 7) =~= t@.take(7));
        }
        return Err(DecodeError::Malformed);
    }
    assert(t@.take(7) =~= head_text()) by { reveal(head_text); }
    let (key, j) = match read_quoted(t, n, 7) {
        Some(x) => x,
        None => {
            return Err(DecodeError::Malformed);
        },
    };
    proof { reveal_strlit(",\"attributes\":{"); }
    if j > n || !matches_at(t, n, j, ",\"attributes\":{") {
        assert(",\"attributes\":{"@ =~= mid_text()) by { reveal(mid_text); }
        return Err(DecodeError::Malformed);
    }
    assert(",\"attributes\":{"@ =~= mid_text()) by { reveal(mid_text); }
    let (attributes, m) = match read_pairs(t, n, j + 15) {
        Some(x) => x,
        None => {
            return Err(DecodeError::Malformed);
        },
    };
    if key.as_str().is_empty() || m >= n || m + 1 != n || t.get_char(m) != '}' {
        return Err(DecodeError::Malformed);
    }
    let rec = Record { key, attributes, origin_offset: None };
    proof { lemma_decode_canonical(t@); }
    Ok(rec)
}

proof fn lemma_parse_chars(t: Seq<char>, i: int, x: Seq<char>)
    requires
        0 <= i,
        i + esc(x).len() < t.len(),
        t.subrange(i, i + esc(x).len()) == esc(x),
        t[i + esc(x).len()] == '"',
    ensures
        parse_chars(t, i) == Some((x, i + esc(x).len() + 1)),
    decreases x.len(),
{
    if x.len() == 0 {
        assert(prepend(Seq::<char>::empty(), Some((x, i + 1))) == Some((x, i + 1)));
    } else {
        let c = x[0];
        let rest = x.skip(1);
        let e = esc_char(c);
        assert(esc(x) == e + esc(rest));
        assert(t[i] == esc(x)[0]);
        assert(t.subrange(i + e.len(), i + e.len() + esc(rest).len()) =~= esc(rest)) by {
            assert forall|k: int| 0 <= k < esc(rest).len() implies t[i + e.len() + k] == esc(
                rest,
            )[k] by {
                assert(t.subrange(i, i + esc(x).len())[e.len() + k] == esc(x)[e.len() + k]);
            }
        }
        lemma_parse_chars(t, i + e.len(), rest);
        if c == '"' || c == '\\' {
            assert(t[i + 1] == esc(x)[1]);
        }
        assert(seq![c] + rest =~= x);
    }
}

proof fn lemma_parse_quoted(t: Seq<char>, i: int, x: Seq<char>)
    requires
        0 <= i,
        i + quoted(x).len() <= t.len(),
        t.subrange(i, i + quoted(x).len()) == quoted(x),
    ensures
        parse_quoted(t, i) == Some((x, i + quoted(x).len())),
{
    let q = quoted(x);
    assert(t[i] == q[0]);
    assert(t.subrange(i + 1, i + 1 + esc(x).len()) =~= esc(x)) by {
        assert forall|k: int| 0 <= k < esc(x).len() implies t[i + 1 + k] == esc(x)[k] by {
            assert(t.subrange(i, i + q.len())[1 + k] == q[1 + k]);
        }
    }
    assert(t[i + 1 + esc(x).len()] == q[1 + esc(x).len() as int]);
    lemma_parse_chars(t, i + 1, x);
}

proof fn lemma_sub(t: Seq<char>, i: int, a: Seq<char>, b: Seq<char>)
    requires
        0 <= i,
        i + a.len() + b.len() <= t.len(),
        t.subrange(i, i + a.len() + b.len()) == a + b,
    ensures
        t.subrange(i, i + a.len()) == a,
        t.subrange(i + a.len(), i + a.len() + b.len()) == b,
{
    let s = t.subrange(i, i + a.len() + b.len());
    assert forall|k: int| 0 <= k < a.len() implies t[i + k] == a[k] by {
        assert(s[k] == t[i + k]);
        assert((a + b)[k] == a[k]);
    }
    assert forall|k: int| 0 <= k < b.len() implies t[i + a.len() + k] == b[k] by {
        assert(s[a.len() + k] == t[i + a.len() + k]);
        assert((a + b)[a.len() + k] == b[k]);
    }
    assert(t.subrange(i, i + a.len()) =~= a);
    assert(t.subrange(i + a.len(), i + a.len() + b.len()) =~= b);
}

proof fn lemma_parse_pair(t: Seq<char>, i: int, p: (Seq<char>, Seq<char>))
    requires
        0 <= i,
        i + pair_text(p).len() <= t.len(),
        t.subrange(i, i + pair_text(p).len()) == pair_text(p),
    ensures
        parse_pair(t, i) == Some((p, i + pair_text(p).len())),
{
    let a = quoted(p.0);
    let b = quoted(p.1);
    assert(pair_text(p) == a + (seq![':'] + b));
    lemma_sub(t, i, a, seq![':'] + b);
    lemma_sub(t, i + a.len(), seq![':'], b);
    lemma_parse_quoted(t, i, p.0);
    assert(t[i + a.len()] == t.subrange(i + a.len(), i + a.len() + 1)[0]);
    lemma_parse_quoted(t, i + a.len() + 1, p.1);
}

proof fn lemma_parse_pairs(t: Seq<char>, i: int, a: Seq<(Seq<char>, Seq<char>)>)
    requires
        0 <= i,
        a.len() >= 1,
        i + pairs_text(a).len() < t.len(),
        t.subrange(i, i + pairs_text(a).len()) == pairs_text(a),
        t[i + pairs_text(a).len()] == '}',
    ensures
        parse_pairs(t, i) == Some((a, i + pairs_text(a).len() + 1)),
    decreases a.len(),
{
    let pt = pair_text(a[0]);
    if a.len() == 1 {
        lemma_parse_pair(t, i, a[0]);
        assert(pt.len() > 0);
        assert(seq![a[0]] =~= a);
    } else {
        let rest = a.skip(1);
        let tail = seq![','] + pairs_text(rest);
        assert(pairs_text(a) == pt + tail);
        lemma_sub(t, i, pt, tail);
        lemma_sub(t, i + pt.len(), seq![','], pairs_text(rest));
        lemma_parse_pair(t, i, a[0]);
        assert(pt.len() > 0);
        assert(t[i + pt.len()] == t.subrange(i + pt.len(), i + pt.len() + 1)[0]);
        lemma_parse_pairs(t, i + pt.len() + 1, rest);
        assert(seq![a[0]] + rest =~= a);
    }
}

/// Writing a valid record that has no bus position yet and reading the
/// document back gives the same record.
#[verifier::rlimit(50)]
pub proof fn lemma_round_trip(v: RecordView)
    requires
        v.valid(),
        v.origin_offset is None,
    ensures
        decode(encode(v)) == Some(v),
{
    let t = encode(v);
    assert(head_text().len() == 7) by { reveal(head_text); }
    assert(mid_text().len() == 15) by { reveal(mid_text); }
    let q = quoted(v.key);
    let pt = pairs_text(v.attributes);
    let rest = mid_text() + pt + seq!['}', '}'];
    assert(t =~= head_text() + (q + rest));
    assert(t.subrange(0, t.len() as int) =~= t);
    lemma_sub(t, 0, head_text(), q + rest);
    assert(t.take(7) =~= t.subrange(0, 7));
    lemma_sub(t, 7, q, rest);
    lemma_parse_quoted(t, 7, v.key);
    let j: int = 7 + q.len() as int;
    assert(rest =~= mid_text() + (pt + seq!['}', '}']));
    lemma_sub(t, j, mid_text(), pt + seq!['}', '}']);
    lemma_sub(t, j + 15, pt, seq!['}', '}']);
    let m: int = j + 15 + pt.len();
    assert(t[m] == t.subrange(m, m + 2)[0]);
    assert(t[m + 1] == t.subrange(m, m + 2)[1]);
    lemma_parse_pairs(t, j + 15, v.attributes);
}

proof fn lemma_canon_chars(t: Seq<char>, i: int)
    requires
        parse_chars(t, i) is Some,
    ensures
        ({
            let (x, j) = parse_chars(t, i)->Some_0;
            &&& 0 <= i < j <= t.len()
            &&& t.subrange(i, j) == esc(x) + seq!['"']
        }),
    decreases t.len() - i,
{
    let (x, j) = parse_chars(t, i)->Some_0;
    if t[i] == '"' {
        assert(t.subrange(i, j) =~= esc(x) + seq!['"']);
    } else {
        let d: int = if t[i] == '\\' { 2 } else { 1 };
        let c = t[i + d - 1];
        lemma_canon_chars(t, i + d);
        let (y, j2) = parse_chars(t, i + d)->Some_0;
        assert(x == seq![c] + y);
        assert(x[0] == c);
        assert(x.skip(1) =~= y);
        assert(esc(x) == esc_char(c) + esc(y));
        assert(t.subrange(i, j) =~= t.subrange(i, i + d) + t.subrange(i + d, j));
        assert(t.subrange(i, i + d) =~= esc_char(c));
        assert(t.subrange(i, j) =~= esc(x) + seq!['"']);
    }
}

proof fn lemma_canon_quoted(t: Seq<char>, i: int)
    requires
        parse_quoted(t, i) is Some,
    ensures
        ({
            let (x, j) = parse_quoted(t, i)->Some_0;
            &&& 0 <= i < j <= t.len()
            &&& t.subrange(i, j) == quoted(x)
        }),
{
    lemma_canon_chars(t, i + 1);
    let (x, j) = parse_quoted(t, i)->Some_0;
    assert(t.subrange(i, j) =~= seq![t[i]] + t.subrange(i + 1, j));
    assert(t.subrange(i, j) =~= quoted(x));
}

proof fn lemma_canon_pair(t: Seq<char>, i: int)
    requires
        parse_pair(t, i) is Some,
    ensures
        ({
            let (p, j) = parse_pair(t, i)->Some_0;
            &&& 0 <= i < j <= t.len()
            &&& t.subrange(i, j) == pair_text(p)
        }),
{
    lemma_canon_quoted(t, i);
    let (k, m) = parse_quoted(t, i)->Some_0;
    lemma_canon_quoted(t, m + 1);
    let (p, j) = parse_pair(t, i)->Some_0;
    assert(t.subrange(i, j) =~= t.subrange(i, m) + seq![t[m]] + t.subrange(m + 1, j));
    assert(t.subrange(i, j) =~= pair_text(p));
}

proof fn lemma_canon_pairs(t: Seq<char>, i: int)
    requires
        parse_pairs(t, i) is Some,
    ensures
        ({
            let (a, j) = parse_pairs(t, i)->Some_0;
            &&& 0 <= i < j <= t.len()
            &&& a.len() >= 1
            &&& t.subrange(i, j) == pairs_text(a) + seq!['}']
        }),
    decreases t.len() - i,
{
    lemma_canon_pair(t, i);
    let (p, m) = parse_pair(t, i)->Some_0;
    let (a, j) = parse_pairs(t, i)->Some_0;
    if t[m] == '}' {
        assert(a =~= seq![p]);
        assert(pairs_text(a) == pair_text(p));
        assert(t.subrange(i, j) =~= t.subrange(i, m) + seq![t[m]]);
        assert(t.subrange(i, j) =~= pairs_text(a) + seq!['}']);
    } else {
        lemma_canon_pairs(t, m + 1);
        let (b, j2) = parse_pairs(t, m + 1)->Some_0;
        assert(a == seq![p] + b);
        assert(a[0] == p);
        assert(a.skip(1) =~= b);
        assert(pairs_text(a) == pair_text(p) + seq![','] + pairs_text(b));
        assert(t.subrange(i, j) =~= t.subrange(i, m) + seq![t[m]] + t.subrange(m + 1, j));
        assert(t.subrange(i, j) =~= pairs_text(a) + seq!['}']);
    }
}

/// A document that decodes is the wire document of what it decodes to:
/// there is one way only to write a record.
#[verifier::rlimit(50)]
pub proof fn lemma_decode_canonical(t: Seq<char>)
    requires
        decode(t) is Some,
    ensures
        t == encode(decode(t)->Some_0),
{
    let v = decode(t)->Some_0;
    assert(head_text().len() == 7) by { reveal(head_text); }
    assert(mid_text().len() == 15) by { reveal(mid_text); }
    lemma_canon_quoted(t, 7);
    let (k, j) = parse_quoted(t, 7)->Some_0;
    lemma_canon_pairs(t, j + 15);
    let (a, m) = parse_pairs(t, j + 15)->Some_0;
    let h = t.take(7);
    let q = t.subrange(7, j);
    let md = t.subrange(j, j + 15);
    let ps = t.subrange(j + 15, m);
    assert(h == head_text());
    assert(q == quoted(k));
    assert(md == mid_text());
    assert(ps == pairs_text(a) + seq!['}']);
    assert(t[m] == '}');
    assert(t =~= h + q + md + ps + seq![t[m]]);
    assert(v == RecordView { key: k, attributes: a, origin_offset: None });
    assert(h + q + md + ps + seq![t[m]] =~= encode(v));
}

} // verus!
