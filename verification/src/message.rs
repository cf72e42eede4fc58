//! The message engine shared by requests and responses: a wire message is a
//! three-token start line, header lines up to the first empty line, and the
//! body, all joined with CRLF. Parsing and formatting are specified here over
//! sequences of characters, and the round trip is proved.

use crate::error::HttpError;
use crate::headers::{assoc_distinct, assoc_insert, Headers};
use crate::text::{
    first_match, has_match, join_by, lemma_concat_split, lemma_first_match,
    lemma_first_match_unique, lemma_join_split, lemma_no_match_concat, lemma_no_match_single,
    lemma_split_by_none, match_at, split_all, split_by, split_once_str, trim_spec, trim_str,
};
use crate::headers::lemma_assoc_insert_absent;
use crate::text::join_from;
use vstd::prelude::*;

verus! {

/// The line separator of the wire format.
pub open spec fn crlf() -> Seq<char> {
    seq!['\r', '\n']
}

/// The token separator of a start line.
pub open spec fn sp() -> Seq<char> {
    seq![' ']
}

/// The key/value separator of a header line.
pub open spec fn colon_space() -> Seq<char> {
    seq![':', ' ']
}

/// The separator literals used by the executable code, as sequences.
pub proof fn lemma_wire_literals()
    ensures
        "\r\n"@ == crlf(),
        " "@ == sp(),
        ": "@ == colon_space(),
{
    reveal_strlit("\r\n");
    reveal_strlit(" ");
    reveal_strlit(": ");
    assert("\r\n"@ =~= crlf());
    assert(" "@ =~= sp());
    assert(": "@ =~= colon_space());
}

/// The parts of a wire message: the three start-line tokens, the header
/// entries in the order of their first appearance, and the body.
pub ghost struct MessageParts {
    pub token0: Seq<char>,
    pub token1: Seq<char>,
    pub token2: Seq<char>,
    pub headers: Seq<(Seq<char>, Seq<char>)>,
    pub body: Seq<char>,
}

/// A header line splits at the first `": "` into its key and its value with
/// surrounding whitespace trimmed; a line without `": "` is no header.
pub open spec fn header_split(line: Seq<char>) -> Option<(Seq<char>, Seq<char>)> {
    let i = first_match(line, colon_space());
    if i < 0 {
        None
    } else {
        Some((line.subrange(0, i), trim_spec(line.subrange(i + 2, line.len() as int))))
    }
}

/// Scan lines for headers, stopping at the first empty line or when lines are
/// exhausted; a line without the separator is skipped; a later value for a
/// key already seen replaces the earlier one.
pub open spec fn scan_headers(
    lines: Seq<Seq<char>>,
    acc: Seq<(Seq<char>, Seq<char>)>,
) -> Seq<(Seq<char>, Seq<char>)>
    decreases lines.len(),
{
    if lines.len() == 0 || lines[0].len() == 0 {
        acc
    } else {
        let acc2 = match header_split(lines[0]) {
            None => acc,
            Some(kv) => assoc_insert(acc, kv.0, kv.1),
        };
        scan_headers(lines.drop_first(), acc2)
    }
}

/// The body: everything after the first empty line, rejoined with CRLF;
/// empty when no empty line occurs.
pub open spec fn body_text(lines: Seq<Seq<char>>) -> Seq<char>
    decreases lines.len(),
{
    if lines.len() == 0 {
        Seq::empty()
    } else if lines[0].len() == 0 {
        join_by(lines.drop_first(), crlf())
    } else {
        body_text(lines.drop_first())
    }
}

/// Parse a wire message: split into lines, take exactly three space-separated
/// tokens from the first line, then headers and body. `None` when the start
/// line does not split into exactly three tokens.
pub open spec fn spec_parse_message(msg: Seq<char>) -> Option<MessageParts> {
    let lines = split_by(msg, crlf());
    let toks = split_by(lines[0], sp());
    if toks.len() != 3 {
        None
    } else {
        Some(
            MessageParts {
                token0: toks[0],
                token1: toks[1],
                token2: toks[2],
                headers: scan_headers(lines.drop_first(), Seq::empty()),
                body: body_text(lines.drop_first()),
            },
        )
    }
}

/// One serialized header line, without its terminator.
pub open spec fn header_line(p: (Seq<char>, Seq<char>)) -> Seq<char> {
    p.0 + colon_space() + p.1
}

/// The serialized header section: each entry's line followed by CRLF.
pub open spec fn headers_text(hs: Seq<(Seq<char>, Seq<char>)>) -> Seq<char>
    decreases hs.len(),
{
    if hs.len() == 0 {
        Seq::empty()
    } else {
        header_line(hs[0]) + crlf() + headers_text(hs.drop_first())
    }
}

/// Serialize a message: start line, header lines, one empty line, then the
/// body verbatim with no trailing separator.
pub open spec fn spec_format_message(
    t0: Seq<char>,
    t1: Seq<char>,
    t2: Seq<char>,
    hs: Seq<(Seq<char>, Seq<char>)>,
    body: Seq<char>,
) -> Seq<char> {
    t0 + sp() + t1 + sp() + t2 + crlf() + headers_text(hs) + crlf() + body
}

/// A start-line token: free of spaces and of the line separator.
pub open spec fn wf_token(t: Seq<char>) -> bool {
    !has_match(t, sp()) && !has_match(t, crlf())
}

/// A header entry that serializes to a line parsed back unchanged: the key
/// holds neither the separator `": "` nor CRLF, the value holds no CRLF and
/// carries no surrounding whitespace.
pub open spec fn wf_header_pair(p: (Seq<char>, Seq<char>)) -> bool {
    &&& !has_match(p.0, colon_space())
    &&& !has_match(p.0, crlf())
    &&& !has_match(p.1, crlf())
    &&& trim_spec(p.1) == p.1
}

/// A header section that round-trips: well-formed entries under distinct keys.
pub open spec fn wf_headers(hs: Seq<(Seq<char>, Seq<char>)>) -> bool {
    assoc_distinct(hs) && (forall|i: int| 0 <= i < hs.len() ==> wf_header_pair(hs[i]))
}

/// The serialized header lines, one per entry.
pub open spec fn header_lines_seq(hs: Seq<(Seq<char>, Seq<char>)>) -> Seq<Seq<char>> {
    Seq::new(hs.len(), |i: int| header_line(hs[i]))
}

/// A well-formed header entry's line is non-empty and free of CRLF.
proof fn lemma_header_line_no_crlf(p: (Seq<char>, Seq<char>))
    requires
        wf_header_pair(p),
    ensures
        !has_match(header_line(p), crlf()),
        header_line(p).len() >= 2,
{
    assert(!has_match(colon_space(), crlf())) by {
        assert forall|i: int| !match_at(colon_space(), crlf(), i) by {
            if match_at(colon_space(), crlf(), i) {
                assert(colon_space()[0] == ':');
            }
        }
    }
    lemma_no_match_concat(p.0, colon_space(), crlf());
    assert((p.0 + colon_space()).last() == ' ');
    lemma_no_match_concat(p.0 + colon_space(), p.1, crlf());
    assert(header_line(p) =~= (p.0 + colon_space()) + p.1);
}

/// Splitting the serialized header section followed by the blank line and the
/// body yields the header lines, one empty line, and the body's lines.
proof fn lemma_headers_split(hs: Seq<(Seq<char>, Seq<char>)>, body: Seq<char>)
    requires
        forall|i: int| 0 <= i < hs.len() ==> wf_header_pair(hs[i]),
    ensures
        split_by(headers_text(hs) + crlf() + body, crlf()) == header_lines_seq(hs) + seq![
            Seq::<char>::empty(),
        ] + split_by(body, crlf()),
    decreases hs.len(),
{
    if hs.len() == 0 {
        assert(!has_match(Seq::<char>::empty(), crlf())) by {
            assert forall|i: int| !match_at(Seq::<char>::empty(), crlf(), i) by {}
        }
        lemma_concat_split(Seq::<char>::empty(), body, crlf());
        assert(headers_text(hs) + crlf() + body =~= Seq::<char>::empty() + crlf() + body);
        assert(seq![Seq::<char>::empty()] + split_by(body, crlf()) =~= header_lines_seq(hs)
            + seq![Seq::<char>::empty()] + split_by(body, crlf()));
    } else {
        let p = hs[0];
        let rest = hs.drop_first();
        assert forall|i: int| 0 <= i < rest.len() implies wf_header_pair(rest[i]) by {
            assert(rest[i] == hs[i + 1]);
        }
        lemma_headers_split(rest, body);
        lemma_header_line_no_crlf(p);
        assert(headers_text(hs) + crlf() + body =~= header_line(p) + crlf() + (headers_text(rest)
            + crlf() + body));
        lemma_concat_split(header_line(p), headers_text(rest) + crlf() + body, crlf());
        assert(seq![header_line(p)] + (header_lines_seq(rest) + seq![Seq::<char>::empty()]
            + split_by(body, crlf())) =~= header_lines_seq(hs) + seq![Seq::<char>::empty()]
            + split_by(body, crlf()));
    }
}

/// A well-formed header entry's line splits back into exactly that entry.
proof fn lemma_header_split_line(p: (Seq<char>, Seq<char>))
    requires
        wf_header_pair(p),
    ensures
        header_split(header_line(p)) == Some(p),
{
    let line = header_line(p);
    let k = p.0.len() as int;
    assert(match_at(line, colon_space(), k)) by {
        assert(line[k] == ':');
        assert(line[k + 1] == ' ');
    }
    assert forall|i: int| 0 <= i < k implies !match_at(line, colon_space(), i) by {
        if match_at(line, colon_space(), i) {
            if i + 2 <= k {
                assert(match_at(p.0, colon_space(), i)) by {
                    assert(line[i] == p.0[i]);
                    assert(line[i + 1] == p.0[i + 1]);
                }
                assert(has_match(p.0, colon_space()));
            } else {
                assert(i == k - 1);
                assert(line[i + 1] == ':');
                assert(line[i + 1] == ' ');
            }
        }
    }
    lemma_first_match_unique(line, colon_space(), k);
    assert(line.subrange(0, k) =~= p.0);
    assert(line.subrange(k + 2, line.len() as int) =~= p.1);
}

/// Scanning the serialized header lines rebuilds exactly the entries, in
/// order, appended to what was already scanned.
proof fn lemma_scan_recover(
    hs: Seq<(Seq<char>, Seq<char>)>,
    acc: Seq<(Seq<char>, Seq<char>)>,
    tail: Seq<Seq<char>>,
)
    requires
        wf_headers(hs),
        forall|i: int, j: int|
            0 <= i < hs.len() && 0 <= j < acc.len() ==> acc[j].0 != hs[i].0,
    ensures
        scan_headers(header_lines_seq(hs) + seq![Seq::<char>::empty()] + tail, acc) == acc + hs,
    decreases hs.len(),
{
    let lines = header_lines_seq(hs) + seq![Seq::<char>::empty()] + tail;
    if hs.len() == 0 {
        assert(lines[0] =~= Seq::<char>::empty());
        assert(acc + hs =~= acc);
    } else {
        let p = hs[0];
        let rest = hs.drop_first();
        lemma_header_line_no_crlf(p);
        assert(lines[0] == header_line(p));
        lemma_header_split_line(p);
        assert forall|j: int| 0 <= j < acc.len() implies acc[j].0 != p.0 by {}
        lemma_assoc_insert_absent(acc, p.0, p.1);
        assert((p.0, p.1) == p);
        let acc2 = acc.push(p);
        assert(assoc_insert(acc, p.0, p.1) == acc2);
        assert forall|i: int| 0 <= i < rest.len() implies wf_header_pair(rest[i]) && rest[i]
            == hs[i + 1] by {
            assert(rest[i] == hs[i + 1]);
        }
        assert(assoc_distinct(rest)) by {
            assert forall|q: int, r: int|
                0 <= q < r < rest.len() implies rest[q].0 != rest[r].0 by {
                assert(rest[q] == hs[q + 1]);
                assert(rest[r] == hs[r + 1]);
            }
        }
        assert forall|i: int, j: int|
            0 <= i < rest.len() && 0 <= j < acc2.len() implies acc2[j].0 != rest[i].0 by {
            assert(rest[i] == hs[i + 1]);
            if j < acc.len() {
                assert(acc2[j] == acc[j]);
            } else {
                assert(acc2[j] == p);
            }
        }
        lemma_scan_recover(rest, acc2, tail);
        assert(lines.drop_first() =~= header_lines_seq(rest) + seq![Seq::<char>::empty()] + tail);
        assert(acc2 + rest =~= acc + hs);
    }
}

/// The body recovered from the lines after the header section is the joined
/// tail.
proof fn lemma_body_recover(hs: Seq<(Seq<char>, Seq<char>)>, tail: Seq<Seq<char>>)
    requires
        forall|i: int| 0 <= i < hs.len() ==> wf_header_pair(hs[i]),
    ensures
        body_text(header_lines_seq(hs) + seq![Seq::<char>::empty()] + tail) == join_by(
            tail,
            crlf(),
        ),
    decreases hs.len(),
{
    let lines = header_lines_seq(hs) + seq![Seq::<char>::empty()] + tail;
    if hs.len() == 0 {
        assert(lines[0] =~= Seq::<char>::empty());
        assert(lines.drop_first() =~= tail);
    } else {
        let rest = hs.drop_first();
        assert forall|i: int| 0 <= i < rest.len() implies wf_header_pair(rest[i]) by {
            assert(rest[i] == hs[i + 1]);
        }
        lemma_header_line_no_crlf(hs[0]);
        assert(lines[0] == header_line(hs[0]));
        lemma_body_recover(rest, tail);
        assert(lines.drop_first() =~= header_lines_seq(rest) + seq![Seq::<char>::empty()] + tail);
    }
}

/// A formatted start line splits on spaces into exactly its three tokens.
proof fn lemma_start_tokens(t0: Seq<char>, t1: Seq<char>, t2: Seq<char>)
    requires
        wf_token(t0),
        wf_token(t1),
        wf_token(t2),
    ensures
        split_by(t0 + sp() + t1 + sp() + t2, sp()) == seq![t0, t1, t2],
{
    assert(t0 + sp() + t1 + sp() + t2 =~= t0 + sp() + (t1 + sp() + t2));
    lemma_concat_split(t0, t1 + sp() + t2, sp());
    lemma_concat_split(t1, t2, sp());
    lemma_split_by_none(t2, sp());
    assert(seq![t0] + (seq![t1] + seq![t2]) =~= seq![t0, t1, t2]);
}

/// Round trip: parsing a formatted message recovers the tokens, the header
/// entries in order, and the body exactly. Any body round-trips, blank lines
/// included, because scanning stops at the first empty line.
pub proof fn lemma_message_roundtrip(
    t0: Seq<char>,
    t1: Seq<char>,
    t2: Seq<char>,
    hs: Seq<(Seq<char>, Seq<char>)>,
    body: Seq<char>,
)
    requires
        wf_token(t0),
        wf_token(t1),
        wf_token(t2),
        wf_headers(hs),
    ensures
        spec_parse_message(spec_format_message(t0, t1, t2, hs, body)) == Some(
            MessageParts { token0: t0, token1: t1, token2: t2, headers: hs, body: body },
        ),
{
    let start = t0 + sp() + t1 + sp() + t2;
    let msg = spec_format_message(t0, t1, t2, hs, body);
    let hsec = headers_text(hs) + crlf() + body;
    assert(!has_match(start, crlf())) by {
        lemma_no_match_single(sp(), crlf());
        lemma_no_match_concat(t0, sp(), crlf());
        assert((t0 + sp()).last() == ' ');
        lemma_no_match_concat(t0 + sp(), t1, crlf());
        lemma_no_match_concat(t0 + sp() + t1, sp(), crlf());
        assert((t0 + sp() + t1 + sp()).last() == ' ');
        lemma_no_match_concat(t0 + sp() + t1 + sp(), t2, crlf());
    }
    assert(msg =~= start + crlf() + hsec);
    lemma_concat_split(start, hsec, crlf());
    lemma_headers_split(hs, body);
    let lines = split_by(msg, crlf());
    assert(lines == seq![start] + (header_lines_seq(hs) + seq![Seq::<char>::empty()] + split_by(
        body,
        crlf(),
    )));
    assert(lines[0] == start);
    lemma_start_tokens(t0, t1, t2);
    assert(lines.drop_first() =~= header_lines_seq(hs) + seq![Seq::<char>::empty()] + split_by(
        body,
        crlf(),
    ));
    lemma_scan_recover(hs, Seq::empty(), split_by(body, crlf()));
    assert(Seq::empty() + hs =~= hs);
    lemma_body_recover(hs, split_by(body, crlf()));
    lemma_join_split(body, crlf());
}

/// A parsed wire message, before request/response interpretation.
pub struct RawMessage {
    pub token0: String,
    pub token1: String,
    pub token2: String,
    pub headers: Headers,
    pub body: String,
}

/// Parse a complete raw message. Fails exactly when the start line does not
/// split into exactly three space-separated tokens.
pub fn parse_message(msg: &str) -> (r: Result<RawMessage, HttpError>)
    ensures
        match r {
            Ok(m) => spec_parse_message(msg@) == Some(
                MessageParts {
                    token0: m.token0@,
                    token1: m.token1@,
                    token2: m.token2@,
                    headers: m.headers@,
                    body: m.body@,
                },
            ) && m.headers.wf(),
            Err(e) => spec_parse_message(msg@) is None && e == HttpError::MalformedStartLine,
        },
{
    proof {
        lemma_wire_literals();
    }
    let ghost lv = split_by(msg@, crlf());
    let lines = split_all(msg, "\r\n");
    let toks = split_all(lines[0], " ");
    proof {
        assert(lines.deep_view()[0] == lv[0]);
    }
    if toks.len() != 3 {
        return Err(HttpError::MalformedStartLine);
    }
    let mut headers = Headers::new();
    let mut i: usize = 1;
    while i < lines.len() && !lines[i].is_empty()
        invariant
            lines.deep_view() == lv,
            lines@.len() == lv.len(),
            1 <= i <= lv.len(),
            headers.wf(),
            scan_headers(lv.skip(1), Seq::empty()) == scan_headers(lv.skip(i as int), headers@),
            body_text(lv.skip(1)) == body_text(lv.skip(i as int)),
        decreases lv.len() - i,
    {
        let ghost pre = headers@;
        let ghost tail = lv.skip(i as int);
        proof {
            assert(tail[0] == lv[i as int]);
            assert(lv[i as int] == lines.deep_view()[i as int]);
            assert(tail.drop_first() =~= lv.skip(i + 1));
            lemma_wire_literals();
        }
        let line = lines[i];
        match split_once_str(line, ": ") {
            Some((k, v)) => {
                let tv = trim_str(v);
                headers.insert(k, tv);
                proof {
                    assert(header_split(line@) == Some((k@, tv@)));
                    assert(scan_headers(tail, pre) == scan_headers(
                        lv.skip(i + 1),
                        assoc_insert(pre, k@, tv@),
                    ));
                }
            },
            None => {
                proof {
                    lemma_first_match(line@, colon_space());
                    assert(header_split(line@) is None);
                    assert(scan_headers(tail, pre) == scan_headers(lv.skip(i + 1), pre));
                }
            },
        }
        proof {
            assert(body_text(tail) == body_text(lv.skip(i + 1)));
        }
        i += 1;
    }
    let body: String;
    if i < lines.len() {
        body = join_from(&lines, i + 1, "\r\n");
        proof {
            let tail = lv.skip(i as int);
            assert(tail[0] == lv[i as int]);
            assert(tail[0].len() == 0);
            assert(tail.drop_first() =~= lv.skip(i + 1));
            assert(body_text(tail) == join_by(lv.skip(i + 1), crlf()));
        }
    } else {
        body = String::new();
        proof {
            assert(lv.skip(i as int).len() == 0);
            assert(body@ =~= body_text(lv.skip(i as int)));
        }
    }
    proof {
        assert(scan_headers(lv.skip(i as int), headers@) == headers@);
        assert(lv.drop_first() =~= lv.skip(1));
        assert(toks.deep_view()[0] == toks@[0]@);
        assert(toks.deep_view()[1] == toks@[1]@);
        assert(toks.deep_view()[2] == toks@[2]@);
    }
    let token0 = toks[0].to_owned();
    let token1 = toks[1].to_owned();
    let token2 = toks[2].to_owned();
    Ok(RawMessage { token0, token1, token2, headers, body })
}

/// Serialize a message from its parts.
pub fn format_message(t0: &str, t1: &str, t2: &str, headers: &Headers, body: &str) -> (r: String)
    ensures
        r@ == spec_format_message(t0@, t1@, t2@, headers@, body@),
{
    proof {
        lemma_wire_literals();
    }
    let mut out = String::new();
    out.append(t0);
    out.append(" ");
    out.append(t1);
    out.append(" ");
    out.append(t2);
    out.append("\r\n");
    let ghost startpart = t0@ + sp() + t1@ + sp() + t2@ + crlf();
    proof {
        assert(out@ =~= startpart + headers_text(headers@.take(0)));
    }
    let mut i: usize = 0;
    while i < headers.len()
        invariant
            0 <= i <= headers@.len(),
            out@ == startpart + headers_text(headers@.take(i as int)),
        decreases headers@.len() - i,
    {
        let p = headers.pair_at(i);
        out.append(p.0.as_str());
        out.append(": ");
        out.append(p.1.as_str());
        out.append("\r\n");
        proof {
            lemma_wire_literals();
            lemma_headers_text_push(headers@.take(i as int), headers@[i as int]);
            assert(headers@.take(i + 1) =~= headers@.take(i as int).push(headers@[i as int]));
            assert(out@ =~= startpart + headers_text(headers@.take(i + 1)));
        }
        i += 1;
    }
    out.append("\r\n");
    out.append(body);
    proof {
        assert(headers@.take(headers@.len() as int) =~= headers@);
        assert(out@ =~= spec_format_message(t0@, t1@, t2@, headers@, body@));
    }
    out
}

/// `headers_text` over a section extended by one entry.
proof fn lemma_headers_text_push(hs: Seq<(Seq<char>, Seq<char>)>, p: (Seq<char>, Seq<char>))
    ensures
        headers_text(hs.push(p)) == headers_text(hs) + header_line(p) + crlf(),
    decreases hs.len(),
{
    if hs.len() == 0 {
        let e = Seq::<(Seq<char>, Seq<char>)>::empty();
        assert(headers_text(e) == Seq::<char>::empty());
        assert(hs.push(p)[0] == p);
        assert(hs.push(p).drop_first() =~= e);
        assert(headers_text(hs.push(p)) == header_line(p) + crlf() + headers_text(e));
        assert(header_line(p) + crlf() + Seq::<char>::empty() =~= Seq::<char>::empty()
            + header_line(p) + crlf());
    } else {
        lemma_headers_text_push(hs.drop_first(), p);
        assert(hs.push(p).drop_first() =~= hs.drop_first().push(p));
        assert(hs.push(p)[0] == hs[0]);
        assert(header_line(hs[0]) + crlf() + (headers_text(hs.drop_first()) + header_line(p)
            + crlf()) =~= (header_line(hs[0]) + crlf() + headers_text(hs.drop_first()))
            + header_line(p) + crlf());
    }
}

} // verus!
