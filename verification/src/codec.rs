//! The board-mapping document format.
//!
//! The store persists one JSON document mapping project-directory strings to
//! `{boardId, boardName, source}` objects. The writer emits a canonical form —
//! no whitespace, fields in that fixed order, `"` and `\` escaped with a
//! backslash — and the reader accepts exactly what the writer emits (the file
//! has a single writer). Anything else counts as corrupted, and the caller
//! falls back to the empty mapping rather than failing.
//!
//! Encoding and parsing are specified by the spec functions here; the round
//! trip — parsing an encoded table yields the table back — is proved in
//! `lemma_document_round_trip`.

use vstd::prelude::*;

use crate::mappings::BoardMapping;
use crate::mappings::BoardMappingV;
use crate::mappings::entries_view;
use vstd::slice::slice_index_get;
use vstd::slice::slice_subrange;

verus! {

/// Relies on String::push from std: appends exactly the one character.
pub assume_specification[ String::push ](s: &mut String, c: char)
    ensures
        final(s)@ == old(s)@.push(c),
;

// ---------------------------------------------------------------- encoding

/// How one character is written inside a quoted string: `"` and `\` get a
/// backslash, everything else stands as itself.
pub open spec fn esc_char(c: char) -> Seq<char> {
    if c == '"' || c == '\\' {
        seq!['\\', c]
    } else {
        seq![c]
    }
}

pub open spec fn esc(s: Seq<char>) -> Seq<char>
    decreases s.len(),
{
    if s.len() == 0 {
        Seq::empty()
    } else {
        esc_char(s[0]) + esc(s.skip(1))
    }
}

/// A quoted, escaped JSON string.
pub open spec fn enc_string(s: Seq<char>) -> Seq<char> {
    seq!['"'] + esc(s) + seq!['"']
}

/// One board-mapping object, fields always in this order.
pub open spec fn enc_mapping(v: BoardMappingV) -> Seq<char> {
    "{\"boardId\":"@ + enc_string(v.board_id) + ",\"boardName\":"@ + enc_string(v.board_name)
        + ",\"source\":"@ + enc_string(v.source) + seq!['}']
}

/// One `"directory":{...}` member.
pub open spec fn enc_entry(e: (Seq<char>, BoardMappingV)) -> Seq<char> {
    enc_string(e.0) + seq![':'] + enc_mapping(e.1)
}

/// The members, comma-separated.
pub open spec fn enc_entries(es: Seq<(Seq<char>, BoardMappingV)>) -> Seq<char>
    decreases es.len(),
{
    if es.len() == 0 {
        Seq::empty()
    } else if es.len() == 1 {
        enc_entry(es[0])
    } else {
        enc_entry(es[0]) + seq![','] + enc_entries(es.skip(1))
    }
}

/// The whole document.
pub open spec fn enc_doc(es: Seq<(Seq<char>, BoardMappingV)>) -> Seq<char> {
    seq!['{'] + enc_entries(es) + seq!['}']
}

/// Escaping distributes over appending one character at the end.
proof fn lemma_esc_push(t: Seq<char>, c: char)
    ensures
        esc(t.push(c)) == esc(t) + esc_char(c),
    decreases t.len(),
{
    let tp = t.push(c);
    assert(tp.len() == t.len() + 1);
    if t.len() == 0 {
        assert(tp[0] == c);
        assert(tp.skip(1) =~= Seq::<char>::empty());
        assert(esc(tp) == esc_char(tp[0]) + esc(tp.skip(1)));
        assert(esc(Seq::<char>::empty()) == Seq::<char>::empty());
        assert(esc_char(c) + Seq::<char>::empty() =~= esc_char(c));
        assert(esc(t) == Seq::<char>::empty());
        assert(Seq::<char>::empty() + esc_char(c) =~= esc_char(c));
    } else {
        assert(tp[0] == t[0]);
        assert(tp.skip(1) =~= t.skip(1).push(c));
        assert(esc(tp) == esc_char(t[0]) + esc(t.skip(1).push(c)));
        lemma_esc_push(t.skip(1), c);
        assert(esc(t) == esc_char(t[0]) + esc(t.skip(1)));
        assert(esc_char(t[0]) + (esc(t.skip(1)) + esc_char(c)) =~= (esc_char(t[0]) + esc(
            t.skip(1),
        )) + esc_char(c));
    }
}

/// Appending a member at the end of the member list.
proof fn lemma_enc_entries_push(es: Seq<(Seq<char>, BoardMappingV)>, e: (Seq<char>, BoardMappingV))
    ensures
        enc_entries(es.push(e)) == if es.len() == 0 {
            enc_entry(e)
        } else {
            enc_entries(es) + seq![','] + enc_entry(e)
        },
    decreases es.len(),
{
    let es1 = es.push(e);
    if es.len() == 0 {
        assert(es1[0] == e);
    } else if es.len() == 1 {
        assert(es1[0] == es[0]);
        assert(es1.skip(1) =~= seq![e]);
        assert(enc_entries(seq![e]) == enc_entry(seq![e][0]));
        assert(seq![e][0] == e);
    } else {
        assert(es1[0] == es[0]);
        assert(es1.skip(1) =~= es.skip(1).push(e));
        lemma_enc_entries_push(es.skip(1), e);
        assert(enc_entry(es[0]) + seq![','] + (enc_entries(es.skip(1)) + seq![','] + enc_entry(e))
            =~= (enc_entry(es[0]) + seq![','] + enc_entries(es.skip(1))) + seq![','] + enc_entry(
            e,
        ));
    }
}

/// Appends `s` to `out` with `"` and `\` escaped.
fn push_escaped(out: &mut String, s: &str)
    ensures
        final(out)@ == old(out)@ + esc(s@),
{
    let n = s.unicode_len();
    let mut i: usize = 0;
    while i < n
        invariant
            i <= n,
            n == s@.len(),
            out@ == old(out)@ + esc(s@.take(i as int)),
        decreases n - i,
    {
        let c = s.get_char(i);
        proof {
            lemma_esc_push(s@.take(i as int), c);
            assert(s@.take(i as int).push(c) =~= s@.take((i + 1) as int));
        }
        if c == '"' || c == '\\' {
            out.push('\\');
            out.push(c);
        } else {
            out.push(c);
        }
        proof {
            assert(out@ =~= old(out)@ + esc(s@.take((i + 1) as int)));
        }
        i = i + 1;
    }
    proof {
        assert(s@.take(n as int) =~= s@);
    }
}

/// Writes a quoted, escaped string.
pub fn encode_string(s: &str) -> (r: String)
    ensures
        r@ == enc_string(s@),
{
    let mut out = String::new();
    out.push('"');
    push_escaped(&mut out, s);
    out.push('"');
    proof {
        assert(out@ =~= enc_string(s@));
    }
    out
}

/// Writes one board-mapping object.
pub fn encode_mapping(m: &BoardMapping) -> (r: String)
    ensures
        r@ == enc_mapping(m@),
{
    let mut out = String::from_str("{\"boardId\":");
    let id = encode_string(m.board_id.as_str());
    out.append(id.as_str());
    out.append(",\"boardName\":");
    let name = encode_string(m.board_name.as_str());
    out.append(name.as_str());
    out.append(",\"source\":");
    let source = encode_string(m.source.as_str());
    out.append(source.as_str());
    out.push('}');
    proof {
        assert(out@ =~= enc_mapping(m@));
    }
    out
}

/// Writes the whole document for the given entries.
pub fn encode_document(entries: &Vec<(String, BoardMapping)>) -> (r: String)
    ensures
        r@ == enc_doc(entries_view(entries@)),
{
    let ghost ev = entries_view(entries@);
    let mut out = String::new();
    out.push('{');
    let n = entries.len();
    let mut i: usize = 0;
    while i < n
        invariant
            i <= n,
            n == entries@.len(),
            ev == entries_view(entries@),
            ev.len() == n,
            out@ == seq!['{'] + enc_entries(ev.take(i as int)),
        decreases n - i,
    {
        if i > 0 {
            out.push(',');
        }
        let e = &entries[i];
        let key = encode_string(e.0.as_str());
        out.append(key.as_str());
        out.push(':');
        let obj = encode_mapping(&e.1);
        out.append(obj.as_str());
        proof {
            assert(ev[i as int] == (entries@[i as int].0@, entries@[i as int].1@));
            lemma_enc_entries_push(ev.take(i as int), ev[i as int]);
            assert(ev.take(i as int).push(ev[i as int]) =~= ev.take((i + 1) as int));
            assert(out@ =~= seq!['{'] + enc_entries(ev.take((i + 1) as int)));
        }
        i = i + 1;
    }
    out.push('}');
    proof {
        assert(ev.take(n as int) =~= ev);
        assert(out@ =~= enc_doc(ev));
    }
    out
}

// ---------------------------------------------------------------- parsing

/// Consumes `tok` off the front of `s`, or rejects.
pub open spec fn spec_expect(s: Seq<char>, tok: Seq<char>) -> Option<Seq<char>> {
    if tok.len() <= s.len() && s.take(tok.len() as int) == tok {
        Some(s.skip(tok.len() as int))
    } else {
        None
    }
}

/// Reads the characters of a quoted string after its opening quote, up to and
/// including the closing quote; a backslash takes the next character
/// literally. Yields the string's characters and the rest of the input.
pub open spec fn parse_string_body(s: Seq<char>) -> Option<(Seq<char>, Seq<char>)>
    decreases s.len(),
{
    if s.len() == 0 {
        None
    } else if s[0] == '"' {
        Some((Seq::empty(), s.skip(1)))
    } else if s[0] == '\\' {
        if s.len() >= 2 {
            match parse_string_body(s.skip(2)) {
                Some(p) => Some((seq![s[1]] + p.0, p.1)),
                None => None,
            }
        } else {
            None
        }
    } else {
        match parse_string_body(s.skip(1)) {
            Some(p) => Some((seq![s[0]] + p.0, p.1)),
            None => None,
        }
    }
}

/// A quoted string, opening quote included.
pub open spec fn spec_parse_string(s: Seq<char>) -> Option<(Seq<char>, Seq<char>)> {
    if s.len() > 0 && s[0] == '"' {
        parse_string_body(s.skip(1))
    } else {
        None
    }
}

/// One board-mapping object, fields in canonical order.
pub open spec fn spec_parse_mapping(s: Seq<char>) -> Option<(BoardMappingV, Seq<char>)> {
    match spec_expect(s, "{\"boardId\":"@) {
        None => None,
        Some(s1) => match spec_parse_string(s1) {
            None => None,
            Some(p1) => match spec_expect(p1.1, ",\"boardName\":"@) {
                None => None,
                Some(s2) => match spec_parse_string(s2) {
                    None => None,
                    Some(p2) => match spec_expect(p2.1, ",\"source\":"@) {
                        None => None,
                        Some(s3) => match spec_parse_string(s3) {
                            None => None,
                            Some(p3) => match spec_expect(p3.1, seq!['}']) {
                                None => None,
                                Some(s4) => Some(
                                    (
                                        BoardMappingV {
                                            board_id: p1.0,
                                            board_name: p2.0,
                                            source: p3.0,
                                        },
                                        s4,
                                    ),
                                ),
                            },
                        },
                    },
                },
            },
        },
    }
}

/// One `"directory":{...}` member.
pub open spec fn spec_parse_entry(s: Seq<char>) -> Option<
    ((Seq<char>, BoardMappingV), Seq<char>),
> {
    match spec_parse_string(s) {
        None => None,
        Some(pk) => match spec_expect(pk.1, seq![':']) {
            None => None,
            Some(s1) => match spec_parse_mapping(s1) {
                None => None,
                Some(pv) => Some(((pk.0, pv.0), pv.1)),
            },
        },
    }
}

/// A non-empty comma-separated member list. `fuel` only bounds the recursion;
/// callers pass the input length, which no member list can outrun.
pub open spec fn spec_parse_entries(s: Seq<char>, fuel: nat) -> Option<
    (Seq<(Seq<char>, BoardMappingV)>, Seq<char>),
>
    decreases fuel,
{
    if fuel == 0 {
        None
    } else {
        match spec_parse_entry(s) {
            None => None,
            Some(pe) => if pe.1.len() > 0 && pe.1[0] == ',' {
                match spec_parse_entries(pe.1.skip(1), (fuel - 1) as nat) {
                    None => None,
                    Some(pr) => Some((seq![pe.0] + pr.0, pr.1)),
                }
            } else {
                Some((seq![pe.0], pe.1))
            },
        }
    }
}

/// The whole document: `{}` or `{` members `}`, nothing trailing.
pub open spec fn spec_parse_doc(s: Seq<char>) -> Option<Seq<(Seq<char>, BoardMappingV)>> {
    if s.len() > 0 && s[0] == '{' {
        if s.skip(1) == seq!['}'] {
            Some(Seq::empty())
        } else {
            match spec_parse_entries(s.skip(1), s.skip(1).len()) {
                None => None,
                Some(pr) => if pr.1 == seq!['}'] {
                    Some(pr.0)
                } else {
                    None
                },
            }
        }
    } else {
        None
    }
}

/// A parse result with `pre` prepended to the parsed characters.
pub open spec fn prepend_chars(pre: Seq<char>, o: Option<(Seq<char>, Seq<char>)>) -> Option<
    (Seq<char>, Seq<char>),
> {
    match o {
        Some(p) => Some((pre + p.0, p.1)),
        None => None,
    }
}

/// A parse result with `pre` prepended to the parsed members.
pub open spec fn prepend_entries(
    pre: Seq<(Seq<char>, BoardMappingV)>,
    o: Option<(Seq<(Seq<char>, BoardMappingV)>, Seq<char>)>,
) -> Option<(Seq<(Seq<char>, BoardMappingV)>, Seq<char>)> {
    match o {
        Some(p) => Some((pre + p.0, p.1)),
        None => None,
    }
}

/// The characters of `s` as a vector.
pub fn chars_of(s: &str) -> (r: Vec<char>)
    ensures
        r@ == s@,
{
    let n = s.unicode_len();
    let mut v: Vec<char> = Vec::new();
    let mut i: usize = 0;
    while i < n
        invariant
            i <= n,
            n == s@.len(),
            v@ == s@.take(i as int),
        decreases n - i,
    {
        v.push(s.get_char(i));
        proof {
            assert(v@ =~= s@.take((i + 1) as int));
        }
        i = i + 1;
    }
    proof {
        assert(s@.take(n as int) =~= s@);
    }
    v
}

fn expect<'a>(s: &'a [char], tok: &str) -> (r: Option<&'a [char]>)
    ensures
        r matches Some(t) ==> spec_expect(s@, tok@) == Some(t@),
        r is None ==> spec_expect(s@, tok@) is None,
{
    let m = tok.unicode_len();
    if m > s.len() {
        return None;
    }
    let mut j: usize = 0;
    while j < m
        invariant
            j <= m,
            m == tok@.len(),
            m <= s@.len(),
            forall|q: int| 0 <= q < j ==> s@[q] == tok@[q],
        decreases m - j,
    {
        let c = *slice_index_get(s, j);
        if c != tok.get_char(j) {
            proof {
                assert(s@.take(m as int)[j as int] != tok@[j as int]);
            }
            return None;
        }
        j = j + 1;
    }
    proof {
        assert(s@.take(m as int) =~= tok@);
    }
    Some(slice_subrange(s, m, s.len()))
}

fn expect_char<'a>(s: &'a [char], c: char) -> (r: Option<&'a [char]>)
    ensures
        r matches Some(t) ==> spec_expect(s@, seq![c]) == Some(t@),
        r is None ==> spec_expect(s@, seq![c]) is None,
{
    if s.len() == 0 {
        return None;
    }
    let c0 = *slice_index_get(s, 0);
    if c0 == c {
        let t = slice_subrange(s, 1, s.len());
        proof {
            assert(s@.take(1) =~= seq![c]);
        }
        return Some(t);
    }
    proof {
        assert(spec_expect(s@, seq![c]) is None) by {
            if s@.take(1) == seq![c] {
                assert(s@.take(1)[0] == seq![c][0]);
            }
        }
    }
    None
}

fn parse_string_exec<'a>(s: &'a [char]) -> (r: Option<(String, &'a [char])>)
    ensures
        r matches Some(p) ==> spec_parse_string(s@) == Some((p.0@, p.1@)) && p.1@.len() < s@.len(),
        r is None ==> spec_parse_string(s@) is None,
{
    let n = s.len();
    if n == 0 {
        return None;
    }
    if *slice_index_get(s, 0) != '"' {
        return None;
    }
    let mut out = String::new();
    let mut i: usize = 1;
    proof {
        match parse_string_body(s@.skip(1)) {
            Some(p) => {
                assert(Seq::<char>::empty() + p.0 =~= p.0);
            },
            None => {},
        }
    }
    while i < n
        invariant
            1 <= i <= n,
            n == s@.len(),
            s@[0] == '"',
            spec_parse_string(s@) == prepend_chars(out@, parse_string_body(s@.skip(i as int))),
        decreases n - i,
    {
        let c = *slice_index_get(s, i);
        let ghost rem = s@.skip(i as int);
        proof {
            assert(rem[0] == c);
        }
        if c == '"' {
            let rest = slice_subrange(s, i + 1, n);
            proof {
                assert(parse_string_body(rem) == Some((Seq::<char>::empty(), rem.skip(1))));
                assert(rem.skip(1) =~= s@.skip((i + 1) as int));
                assert(out@ + Seq::<char>::empty() =~= out@);
                assert(rest@ =~= s@.skip((i + 1) as int));
            }
            return Some((out, rest));
        } else if c == '\\' {
            if i + 1 == n {
                proof {
                    assert(rem.len() == 1);
                    assert(parse_string_body(rem) is None);
                }
                return None;
            }
            let d = *slice_index_get(s, i + 1);
            let ghost out0 = out@;
            out.push(d);
            proof {
                assert(rem.len() >= 2);
                assert(rem[1] == d);
                assert(rem.skip(2) =~= s@.skip((i + 2) as int));
                assert(parse_string_body(rem) == prepend_chars(
                    seq![d],
                    parse_string_body(s@.skip((i + 2) as int)),
                ));
                match parse_string_body(s@.skip((i + 2) as int)) {
                    Some(p) => {
                        assert(out0 + (seq![d] + p.0) =~= (out0 + seq![d]) + p.0);
                        assert(out@ =~= out0 + seq![d]);
                    },
                    None => {},
                }
            }
            i = i + 2;
        } else {
            let ghost out0 = out@;
            out.push(c);
            proof {
                assert(rem.skip(1) =~= s@.skip((i + 1) as int));
                assert(parse_string_body(rem) == prepend_chars(
                    seq![c],
                    parse_string_body(s@.skip((i + 1) as int)),
                ));
                match parse_string_body(s@.skip((i + 1) as int)) {
                    Some(p) => {
                        assert(out0 + (seq![c] + p.0) =~= (out0 + seq![c]) + p.0);
                        assert(out@ =~= out0 + seq![c]);
                    },
                    None => {},
                }
            }
            i = i + 1;
        }
    }
    proof {
        assert(s@.skip(i as int).len() == 0);
        assert(parse_string_body(s@.skip(i as int)) is None);
    }
    None
}

fn parse_mapping_exec<'a>(s: &'a [char]) -> (r: Option<(BoardMapping, &'a [char])>)
    ensures
        r matches Some(p) ==> spec_parse_mapping(s@) == Some((p.0@, p.1@)) && p.1@.len() < s@.len(),
        r is None ==> spec_parse_mapping(s@) is None,
{
    let s1 = match expect(s, "{\"boardId\":") {
        None => {
            return None;
        },
        Some(t) => t,
    };
    let (id, s2) = match parse_string_exec(s1) {
        None => {
            return None;
        },
        Some(p) => p,
    };
    let s3 = match expect(s2, ",\"boardName\":") {
        None => {
            return None;
        },
        Some(t) => t,
    };
    let (name, s4) = match parse_string_exec(s3) {
        None => {
            return None;
        },
        Some(p) => p,
    };
    let s5 = match expect(s4, ",\"source\":") {
        None => {
            return None;
        },
        Some(t) => t,
    };
    let (source, s6) = match parse_string_exec(s5) {
        None => {
            return None;
        },
        Some(p) => p,
    };
    let s7 = match expect_char(s6, '}') {
        None => {
            return None;
        },
        Some(t) => t,
    };
    Some((BoardMapping { board_id: id, board_name: name, source }, s7))
}

fn parse_entry_exec<'a>(s: &'a [char]) -> (r: Option<((String, BoardMapping), &'a [char])>)
    ensures
        r matches Some(p) ==> spec_parse_entry(s@) == Some(((p.0.0@, p.0.1@), p.1@))
            && p.1@.len() < s@.len(),
        r is None ==> spec_parse_entry(s@) is None,
{
    let (key, s1) = match parse_string_exec(s) {
        None => {
            return None;
        },
        Some(p) => p,
    };
    let s2 = match expect_char(s1, ':') {
        None => {
            return None;
        },
        Some(t) => t,
    };
    let (m, s3) = match parse_mapping_exec(s2) {
        None => {
            return None;
        },
        Some(p) => p,
    };
    Some(((key, m), s3))
}

fn parse_entries_exec<'a>(s: &'a [char], fuel: usize) -> (r: Option<
    (Vec<(String, BoardMapping)>, &'a [char]),
>)
    ensures
        r matches Some(p) ==> spec_parse_entries(s@, fuel as nat) == Some(
            (entries_view(p.0@), p.1@),
        ),
        r is None ==> spec_parse_entries(s@, fuel as nat) is None,
{
    let mut acc: Vec<(String, BoardMapping)> = Vec::new();
    let mut cur: &[char] = s;
    let mut f: usize = fuel;
    proof {
        assert(entries_view(acc@) =~= Seq::<(Seq<char>, BoardMappingV)>::empty());
        match spec_parse_entries(s@, fuel as nat) {
            Some(p) => {
                assert(Seq::<(Seq<char>, BoardMappingV)>::empty() + p.0 =~= p.0);
            },
            None => {},
        }
    }
    loop
        invariant
            spec_parse_entries(s@, fuel as nat) == prepend_entries(
                entries_view(acc@),
                spec_parse_entries(cur@, f as nat),
            ),
        decreases f,
    {
        if f == 0 {
            return None;
        }
        match parse_entry_exec(cur) {
            None => {
                return None;
            },
            Some(((k, m), rest)) => {
                let ghost acc0 = entries_view(acc@);
                let ghost ev = (k@, m@);
                acc.push((k, m));
                proof {
                    assert(entries_view(acc@) =~= acc0.push(ev));
                    assert(acc0.push(ev) =~= acc0 + seq![ev]);
                }
                if rest.len() > 0 && *slice_index_get(rest, 0) == ',' {
                    let next = slice_subrange(rest, 1, rest.len());
                    proof {
                        assert(rest@.skip(1) =~= next@);
                        assert(spec_parse_entries(cur@, f as nat) == prepend_entries(
                            seq![ev],
                            spec_parse_entries(next@, (f - 1) as nat),
                        ));
                        match spec_parse_entries(next@, (f - 1) as nat) {
                            Some(p) => {
                                assert(acc0 + (seq![ev] + p.0) =~= (acc0 + seq![ev]) + p.0);
                            },
                            None => {},
                        }
                    }
                    cur = next;
                    f = f - 1;
                } else {
                    proof {
                        assert(spec_parse_entries(cur@, f as nat) == Some((seq![ev], rest@)));
                    }
                    return Some((acc, rest));
                }
            },
        }
    }
}

/// Parses a whole document into its entries, in document order. `None` means
/// the text is not a document this store wrote.
pub fn parse_document(s: &str) -> (r: Option<Vec<(String, BoardMapping)>>)
    ensures
        r matches Some(v) ==> spec_parse_doc(s@) == Some(entries_view(v@)),
        r is None ==> spec_parse_doc(s@) is None,
{
    let cs = chars_of(s);
    let sl = cs.as_slice();
    if sl.len() == 0 {
        return None;
    }
    if *slice_index_get(sl, 0) != '{' {
        return None;
    }
    let rest = slice_subrange(sl, 1, sl.len());
    proof {
        assert(rest@ =~= s@.skip(1));
    }
    if rest.len() == 1 && *slice_index_get(rest, 0) == '}' {
        let v: Vec<(String, BoardMapping)> = Vec::new();
        proof {
            assert(rest@ =~= seq!['}']);
            assert(entries_view(v@) =~= Seq::<(Seq<char>, BoardMappingV)>::empty());
        }
        return Some(v);
    }
    proof {
        assert(rest@ != seq!['}']) by {
            if rest@ == seq!['}'] {
                assert(rest@.len() == 1);
                assert(rest@[0] == '}');
            }
        }
    }
    match parse_entries_exec(rest, rest.len()) {
        None => None,
        Some((v, tail)) => {
            if tail.len() == 1 && *slice_index_get(tail, 0) == '}' {
                proof {
                    assert(tail@ =~= seq!['}']);
                }
                Some(v)
            } else {
                proof {
                    assert(tail@ != seq!['}']) by {
                        if tail@ == seq!['}'] {
                            assert(tail@.len() == 1);
                            assert(tail@[0] == '}');
                        }
                    }
                }
                None
            }
        },
    }
}

// ------------------------------------------------------------- round trip

/// The parser recovers an escaped string: reading a string body off
/// `esc(s)` + `"` leaves exactly the tail behind.
proof fn lemma_parse_string_body_inverts(s: Seq<char>, rest: Seq<char>)
    ensures
        parse_string_body(esc(s) + seq!['"'] + rest) == Some((s, rest)),
    decreases s.len(),
{
    let t = esc(s) + seq!['"'] + rest;
    if s.len() == 0 {
        assert(esc(s) == Seq::<char>::empty());
        assert(t =~= seq!['"'] + rest);
        assert(t[0] == '"');
        assert(t.skip(1) =~= rest);
    } else {
        let c = s[0];
        let s1 = s.skip(1);
        assert(esc(s) == esc_char(c) + esc(s1));
        lemma_parse_string_body_inverts(s1, rest);
        if c == '"' || c == '\\' {
            assert(esc_char(c) == seq!['\\', c]);
            assert(t =~= seq!['\\', c] + (esc(s1) + seq!['"'] + rest));
            assert(t[0] == '\\');
            assert(t.len() >= 2);
            assert(t[1] == c);
            assert(t.skip(2) =~= esc(s1) + seq!['"'] + rest);
            assert(seq![c] + s1 =~= s);
        } else {
            assert(esc_char(c) == seq![c]);
            assert(t =~= seq![c] + (esc(s1) + seq!['"'] + rest));
            assert(t[0] == c);
            assert(t.skip(1) =~= esc(s1) + seq!['"'] + rest);
            assert(seq![c] + s1 =~= s);
        }
    }
}

proof fn lemma_parse_string_inverts(k: Seq<char>, rest: Seq<char>)
    ensures
        spec_parse_string(enc_string(k) + rest) == Some((k, rest)),
{
    let t = enc_string(k) + rest;
    assert(t[0] == '"');
    assert(t.skip(1) =~= esc(k) + seq!['"'] + rest);
    lemma_parse_string_body_inverts(k, rest);
}

proof fn lemma_expect_inverts(tok: Seq<char>, rest: Seq<char>)
    ensures
        spec_expect(tok + rest, tok) == Some(rest),
{
    let t = tok + rest;
    assert(t.take(tok.len() as int) =~= tok);
    assert(t.skip(tok.len() as int) =~= rest);
}

proof fn lemma_parse_mapping_inverts(v: BoardMappingV, rest: Seq<char>)
    ensures
        spec_parse_mapping(enc_mapping(v) + rest) == Some((v, rest)),
{
    let a = "{\"boardId\":"@;
    let b = ",\"boardName\":"@;
    let c = ",\"source\":"@;
    let t = enc_mapping(v) + rest;
    let x6 = seq!['}'] + rest;
    let x5 = enc_string(v.source) + x6;
    let x4 = c + x5;
    let x3 = enc_string(v.board_name) + x4;
    let x2 = b + x3;
    let x1 = enc_string(v.board_id) + x2;
    assert(t =~= a + x1);
    lemma_expect_inverts(a, x1);
    lemma_parse_string_inverts(v.board_id, x2);
    lemma_expect_inverts(b, x3);
    lemma_parse_string_inverts(v.board_name, x4);
    lemma_expect_inverts(c, x5);
    lemma_parse_string_inverts(v.source, x6);
    lemma_expect_inverts(seq!['}'], rest);
    assert(BoardMappingV { board_id: v.board_id, board_name: v.board_name, source: v.source }
        == v);
}

proof fn lemma_parse_entry_inverts(e: (Seq<char>, BoardMappingV), rest: Seq<char>)
    ensures
        spec_parse_entry(enc_entry(e) + rest) == Some((e, rest)),
{
    let t = enc_entry(e) + rest;
    let x2 = enc_mapping(e.1) + rest;
    let x1 = seq![':'] + x2;
    assert(t =~= enc_string(e.0) + x1);
    lemma_parse_string_inverts(e.0, x1);
    lemma_expect_inverts(seq![':'], x2);
    lemma_parse_mapping_inverts(e.1, rest);
    assert((e.0, e.1) == e);
}

/// A member list never encodes shorter than its member count, so the input
/// length always suffices as parsing fuel.
proof fn lemma_enc_entries_len(es: Seq<(Seq<char>, BoardMappingV)>)
    ensures
        enc_entries(es).len() >= es.len(),
    decreases es.len(),
{
    if es.len() == 1 {
        assert(enc_entry(es[0]).len() >= 1);
    } else if es.len() > 1 {
        lemma_enc_entries_len(es.skip(1));
        assert(enc_entry(es[0]).len() >= 1);
    }
}

proof fn lemma_parse_entries_inverts(
    es: Seq<(Seq<char>, BoardMappingV)>,
    rest: Seq<char>,
    fuel: nat,
)
    requires
        es.len() >= 1,
        fuel >= es.len(),
        rest.len() > 0 ==> rest[0] != ',',
    ensures
        spec_parse_entries(enc_entries(es) + rest, fuel) == Some((es, rest)),
    decreases es.len(),
{
    if es.len() == 1 {
        assert(enc_entries(es) == enc_entry(es[0]));
        lemma_parse_entry_inverts(es[0], rest);
        assert(seq![es[0]] =~= es);
    } else {
        let tail = seq![','] + (enc_entries(es.skip(1)) + rest);
        assert(enc_entries(es) == enc_entry(es[0]) + seq![','] + enc_entries(es.skip(1)));
        assert(enc_entries(es) + rest =~= enc_entry(es[0]) + tail);
        lemma_parse_entry_inverts(es[0], tail);
        assert(tail[0] == ',');
        assert(tail.skip(1) =~= enc_entries(es.skip(1)) + rest);
        lemma_parse_entries_inverts(es.skip(1), rest, (fuel - 1) as nat);
        assert(seq![es[0]] + es.skip(1) =~= es);
    }
}

/// Round trip: parsing the canonical document written for any table yields
/// exactly that table's entries, in order.
pub proof fn lemma_document_round_trip(es: Seq<(Seq<char>, BoardMappingV)>)
    ensures
        spec_parse_doc(enc_doc(es)) == Some(es),
{
    let t = enc_doc(es);
    assert(t[0] == '{');
    let rest = t.skip(1);
    assert(rest =~= enc_entries(es) + seq!['}']);
    if es.len() == 0 {
        assert(enc_entries(es) == Seq::<char>::empty());
        assert(rest =~= seq!['}']);
        assert(spec_parse_doc(t) == Some(Seq::<(Seq<char>, BoardMappingV)>::empty()));
        assert(Seq::<(Seq<char>, BoardMappingV)>::empty() =~= es);
    } else {
        lemma_enc_entries_len(es);
        assert(rest.len() >= es.len() + 1);
        assert(rest != seq!['}']) by {
            if rest == seq!['}'] {
                assert(rest.len() == 1);
            }
        }
        assert(seq!['}'][0] == '}');
        lemma_parse_entries_inverts(es, seq!['}'], rest.len());
    }
}

/// What loading document text yields: the parsed entries when the text is a
/// well-formed document with unique directories, the empty table otherwise.
pub open spec fn spec_load(s: Seq<char>) -> Seq<(Seq<char>, BoardMappingV)> {
    match spec_parse_doc(s) {
        Some(es) => if crate::mappings::unique_keys(es) {
            es
        } else {
            Seq::empty()
        },
        None => Seq::empty(),
    }
}

/// Loading what was saved loses nothing: for any table with unique
/// directories — which every table the store builds has — writing the
/// document and loading it back yields the identical table.
pub proof fn lemma_save_load_round_trip(es: Seq<(Seq<char>, BoardMappingV)>)
    requires
        crate::mappings::unique_keys(es),
    ensures
        spec_load(enc_doc(es)) == es,
{
    lemma_document_round_trip(es);
}

} // verus!
