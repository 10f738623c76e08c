//! The text side of a minimal HTTP/1.1 chaos server for tests: requests are
//! recorded, and a response may be cut off in the middle of its body.

use vstd::prelude::*;

use crate::model::copy_bytes;
use crate::table::Table;
use crate::text::{
    from_utf8_lossy, join4, join5, parse_upto, show, split_by, split_once, split_text,
    to_lowercase, trim,
};

verus! {

broadcast use vstd::seq::group_seq_axioms;

/// A longer head makes the server hang up.
pub const HEAD_LIMIT: usize = 1_048_576;

#[verifier::external_type_specification]
#[verifier::external_body]
pub struct ExJsonValue(serde_json::Value);

/// What a JSON value holds, written out as compact text.
pub uninterp spec fn json_written(value: serde_json::Value) -> Seq<u8>;

/// `serde_json::to_vec` on a [`serde_json::Value`], which never fails: every
/// key of such a value is a string. The value determines the bytes.
#[verifier::external_body]
fn json_bytes(value: &serde_json::Value) -> (r: Vec<u8>)
    ensures
        r@ == json_written(*value),
{
    serde_json::to_vec(value).unwrap()
}

/// A request as it came in.
pub struct RecordedRequest {
    pub method: String,
    pub path: String,
    pub query: Table<String>,
    pub headers: Table<String>,
    pub body: Vec<u8>,
}

/// The model of a request.
pub struct Request {
    pub method: Seq<char>,
    pub path: Seq<char>,
    pub query: Map<Seq<char>, Seq<char>>,
    pub headers: Map<Seq<char>, Seq<char>>,
    pub body: Seq<u8>,
}

impl View for RecordedRequest {
    type V = Request;

    open spec fn view(&self) -> Request {
        Request {
            method: self.method@,
            path: self.path@,
            query: crate::table::entries(self.query@),
            headers: crate::table::entries(self.headers@),
            body: self.body@,
        }
    }
}

/// What the server answers.
#[derive(Debug)]
pub struct ResponseSpec {
    pub status: u16,
    pub body: Vec<u8>,
    pub content_type: String,
    /// How long to wait before the answer, in nanoseconds.
    pub delay: u128,
    /// Close the socket in the middle of the response (truncated body).
    pub drop_after: Option<usize>,
    /// Extra response headers (e.g. `Location` for a redirect).
    pub headers: Vec<(String, String)>,
}

impl ResponseSpec {
    /// The body is JSON text: a whole answer without delay.
    pub open spec fn answers_json(&self, status: u16, body: Seq<u8>) -> bool {
        &&& self.status == status
        &&& self.body@ == body
        &&& self.content_type@ == "application/json"@
        &&& self.plain()
    }

    /// Neither delayed nor cut off, and without extra headers.
    pub open spec fn plain(&self) -> bool {
        self.delay == 0 && self.drop_after is None && self.headers@.len() == 0
    }

    /// Answer a JSON value.
    pub fn json(value: &serde_json::Value) -> (r: Self)
        ensures
            r.answers_json(200, json_written(*value)),
    {
        ResponseSpec::json_text(200, json_bytes(value))
    }

    /// Answer bytes that are JSON text.
    pub fn json_text(status: u16, body: Vec<u8>) -> (r: Self)
        ensures
            r.answers_json(status, body@),
    {
        ResponseSpec {
            status,
            body,
            content_type: "application/json".to_owned(),
            delay: 0,
            drop_after: None,
            headers: Vec::new(),
        }
    }

    /// Answer bytes.
    pub fn raw(body: Vec<u8>) -> (r: Self)
        ensures
            r.status == 200,
            r.body@ == body@,
            r.content_type@ == "application/octet-stream"@,
            r.plain(),
    {
        ResponseSpec {
            status: 200,
            body,
            content_type: "application/octet-stream".to_owned(),
            delay: 0,
            drop_after: None,
            headers: Vec::new(),
        }
    }

    /// Answer a status with an empty JSON object.
    pub fn status(status: u16) -> (r: Self)
        ensures
            r.answers_json(status, seq![0x7bu8, 0x7du8]),
    {
        let mut body: Vec<u8> = Vec::new();
        body.push(0x7b);
        body.push(0x7d);
        assert(body@ =~= seq![0x7bu8, 0x7du8]);
        ResponseSpec::json_text(status, body)
    }

    /// The head that goes out before the body.
    pub fn head(&self) -> (r: String)
        ensures
            r@ == head_text(
                self.status,
                self.content_type@,
                self.body@.len(),
                self.headers@,
            ),
    {
        let mut head = join5(
            "HTTP/1.1 ",
            show(self.status as u64).as_str(),
            " X\r\ncontent-type: ",
            self.content_type.as_str(),
            "\r\ncontent-length: ",
        );
        head.append(show(self.body.len() as u64).as_str());
        head.append("\r\n");
        let ghost start = head@;
        let mut i: usize = 0;
        assert(start + header_lines(self.headers@, 0) =~= start);
        while i < self.headers.len()
            invariant
                i <= self.headers.len(),
                head@ == start + header_lines(self.headers@, i as nat),
            decreases self.headers.len() - i,
        {
            let (name, value) = (&self.headers[i].0, &self.headers[i].1);
            let line = join4(name.as_str(), ": ", value.as_str(), "\r\n");
            head.append(line.as_str());
            assert(head@ =~= start + header_lines(self.headers@, (i + 1) as nat));
            i += 1;
        }
        head.append("\r\n");
        head
    }

    /// The part of the body that goes out.
    pub fn sent_body(&self) -> (r: Vec<u8>)
        ensures
            r@ == sent(self.body@, self.drop_after),
    {
        let n: usize = match self.drop_after {
            Some(n) => if n < self.body.len() {
                n
            } else {
                self.body.len()
            },
            None => self.body.len(),
        };
        let out = copy_bytes(vstd::slice::slice_subrange(self.body.as_slice(), 0, n));
        assert(out@ =~= sent(self.body@, self.drop_after));
        out
    }

    /// Whether the connection is closed after the body.
    pub fn closes(&self) -> (r: bool)
        ensures
            r == self.drop_after is Some,
    {
        self.drop_after.is_some()
    }
}

/// The lines of the first `n` extra headers.
pub open spec fn header_lines(headers: Seq<(String, String)>, n: nat) -> Seq<char>
    decreases n,
{
    if n == 0 {
        Seq::empty()
    } else {
        header_lines(headers, (n - 1) as nat) + (headers[n - 1].0@ + ": "@ + headers[n - 1].1@
            + "\r\n"@)
    }
}

/// The head of a response.
pub open spec fn head_text(
    status: u16,
    content_type: Seq<char>,
    len: nat,
    headers: Seq<(String, String)>,
) -> Seq<char> {
    "HTTP/1.1 "@ + crate::text::decimal(status as nat) + " X\r\ncontent-type: "@ + content_type
        + "\r\ncontent-length: "@ + crate::text::decimal(len) + "\r\n"@ + header_lines(
        headers,
        headers.len(),
    ) + "\r\n"@
}

/// The part of a body that goes out.
pub open spec fn sent(body: Seq<u8>, drop_after: Option<usize>) -> Seq<u8> {
    match drop_after {
        Some(n) => if n < body.len() {
            body.take(n as int)
        } else {
            body
        },
        None => body,
    }
}

/// How far a head was read.
#[derive(Debug, Clone, Copy, PartialEq, Eq, Structural)]
pub enum HeadState {
    /// The blank line is still to come.
    More,
    /// The head is complete.
    Complete,
    /// The head is too long: hang up.
    TooLong,
}

/// The bytes end with a blank line.
pub open spec fn ends_head(buf: Seq<u8>) -> bool {
    &&& buf.len() >= 4
    &&& buf[buf.len() - 4] == 0x0d
    &&& buf[buf.len() - 3] == 0x0a
    &&& buf[buf.len() - 2] == 0x0d
    &&& buf[buf.len() - 1] == 0x0a
}

/// How far a head was read, after one more byte.
pub fn head_state(buf: &Vec<u8>) -> (r: HeadState)
    ensures
        r == if ends_head(buf@) {
            HeadState::Complete
        } else if buf@.len() > HEAD_LIMIT {
            HeadState::TooLong
        } else {
            HeadState::More
        },
{
    let n: usize = buf.len();
    if n >= 4 && buf[n - 4] == 0x0d && buf[n - 3] == 0x0a && buf[n - 2] == 0x0d && buf[n - 1]
        == 0x0a {
        HeadState::Complete
    } else if n > HEAD_LIMIT {
        HeadState::TooLong
    } else {
        HeadState::More
    }
}

/// The name and the value of one pair of a query.
pub open spec fn query_pair(pair: Seq<char>) -> (Seq<char>, Seq<char>) {
    match crate::text::cut(pair, "="@) {
        Some(p) => p,
        None => (pair, Seq::empty()),
    }
}

/// What the first `n` pairs of a query say: a later pair replaces an earlier
/// one of the same name, and empty pairs say nothing.
pub open spec fn query_upto(pairs: Seq<Seq<char>>, n: nat) -> Map<Seq<char>, Seq<char>>
    decreases n,
{
    if n == 0 {
        Map::empty()
    } else {
        let before = query_upto(pairs, (n - 1) as nat);
        if pairs[n - 1].len() == 0 {
            before
        } else {
            before.insert(query_pair(pairs[n - 1]).0, query_pair(pairs[n - 1]).1)
        }
    }
}

/// What the first `n` lines say as headers; names are lowercase, and a line
/// without a colon says nothing.
pub open spec fn headers_upto(lines: Seq<Seq<char>>, n: nat) -> Map<Seq<char>, Seq<char>>
    decreases n,
{
    if n <= 1 {
        Map::empty()
    } else {
        let before = headers_upto(lines, (n - 1) as nat);
        match crate::text::cut(lines[n - 1], ":"@) {
            Some((name, value)) => before.insert(
                crate::text::lowered(crate::text::trimmed(name)),
                crate::text::trimmed(value),
            ),
            None => before,
        }
    }
}

/// The piece at `i`, or nothing.
pub open spec fn piece(parts: Seq<Seq<char>>, i: int) -> Seq<char> {
    if i < parts.len() {
        parts[i]
    } else {
        Seq::empty()
    }
}

/// The request that a head announces, still without its body.
pub open spec fn head_request(head: Seq<char>) -> Request {
    let lines = crate::text::pieces(head, "\r\n"@);
    let parts = crate::text::split(lines[0], ' ');
    let target = piece(parts, 1);
    let (path, query) = match crate::text::cut(target, "?"@) {
        Some(p) => p,
        None => (target, Seq::empty()),
    };
    let pairs = crate::text::split(query, '&');
    Request {
        method: piece(parts, 0),
        path,
        query: query_upto(pairs, pairs.len()),
        headers: headers_upto(lines, lines.len()),
        body: Seq::empty(),
    }
}

/// The length of the body that headers announce.
pub open spec fn announced_length(headers: Map<Seq<char>, Seq<char>>) -> nat {
    if headers.contains_key("content-length"@) {
        match crate::text::parsed_upto(headers["content-length"@], usize::MAX as nat) {
            Some(n) => n,
            None => 0,
        }
    } else {
        0
    }
}

proof fn lemma_pieces_nonempty(s: Seq<char>, pat: Seq<char>)
    ensures
        crate::text::pieces(s, pat).len() > 0,
{
}

fn nth_piece<'a>(parts: &Vec<&'a str>, i: usize) -> (r: &'a str)
    ensures
        r@ == piece(crate::text::texts(parts@), i as int),
{
    if i < parts.len() {
        assert(crate::text::texts(parts@)[i as int] == parts@[i as int]@);
        parts[i]
    } else {
        proof {
            reveal_strlit("");
            assert(""@ =~= Seq::<char>::empty());
        }
        ""
    }
}

fn parse_query(query: &str) -> (r: Table<String>)
    ensures
        crate::table::entries(r@) == query_upto(
            crate::text::split(query@, '&'),
            crate::text::split(query@, '&').len(),
        ),
{
    let pairs = split_text(query, '&');
    let ghost texts = crate::text::texts(pairs@);
    let mut table: Table<String> = Table::new();
    let mut i: usize = 0;
    assert(crate::table::entries(table@) =~= Map::<Seq<char>, Seq<char>>::empty());
    while i < pairs.len()
        invariant
            i <= pairs.len(),
            texts == crate::text::texts(pairs@),
            crate::table::entries(table@) == query_upto(texts, i as nat),
        decreases pairs.len() - i,
    {
        let pair = pairs[i];
        assert(texts[i as int] == pair@);
        if pair.unicode_len() > 0 {
            proof {
                reveal_strlit("");
                assert(""@ =~= Seq::<char>::empty());
            }
            let (k, v) = match split_once(pair, "=") {
                Some(p) => p,
                None => (pair, ""),
            };
            assert((k@, v@) == query_pair(pair@));
            let value = v.to_owned();
            proof {
                crate::table::lemma_entries_insert(table@, k@, value);
            }
            table.insert(k, value);
        }
        i += 1;
    }
    table
}

fn parse_headers(lines: &Vec<&str>) -> (r: Table<String>)
    ensures
        crate::table::entries(r@) == headers_upto(crate::text::texts(lines@), lines@.len()),
{
    let ghost texts = crate::text::texts(lines@);
    let mut table: Table<String> = Table::new();
    assert(crate::table::entries(table@) =~= Map::<Seq<char>, Seq<char>>::empty());
    if lines.len() == 0 {
        return table;
    }
    let mut i: usize = 1;
    while i < lines.len()
        invariant
            1 <= i <= lines.len(),
            texts == crate::text::texts(lines@),
            crate::table::entries(table@) == headers_upto(texts, i as nat),
        decreases lines.len() - i,
    {
        let line = lines[i];
        assert(texts[i as int] == line@);
        match split_once(line, ":") {
            Some((name, value)) => {
                assert(crate::text::cut(line@, ":"@) == Some((name@, value@)));
                let key = to_lowercase(trim(name));
                let text = trim(value).to_owned();
                proof {
                    crate::table::lemma_entries_insert(table@, key@, text);
                }
                table.insert(key.as_str(), text);
            },
            None => {
                assert(crate::text::cut(line@, ":"@) is None);
            },
        }
        i += 1;
    }
    table
}

/// Take the text of a head apart. The result is the request without its body,
/// and the length of the body that follows.
pub fn parse_head_text(head: &str) -> (r: (RecordedRequest, usize))
    ensures
        r.0@ == head_request(head@),
        r.1 == announced_length(r.0@.headers),
{
    proof {
        reveal_strlit("\r\n");
        reveal_strlit("");
        assert(""@ =~= Seq::<char>::empty());
        lemma_pieces_nonempty(head@, "\r\n"@);
    }
    let lines = split_by(head, "\r\n");
    assert(crate::text::texts(lines@).len() == lines@.len());
    assert(crate::text::texts(lines@)[0] == lines@[0]@);
    let parts = split_text(lines[0], ' ');
    let method = nth_piece(&parts, 0).to_owned();
    let target = nth_piece(&parts, 1);
    let (path, query) = match split_once(target, "?") {
        Some(p) => p,
        None => (target, ""),
    };
    assert((path@, query@) == match crate::text::cut(target@, "?"@) {
        Some(p) => p,
        None => (target@, Seq::empty()),
    });
    let request = RecordedRequest {
        method,
        path: path.to_owned(),
        query: parse_query(query),
        headers: parse_headers(&lines),
        body: Vec::new(),
    };
    let len: usize = match request.headers.get("content-length") {
        Some(v) => match parse_upto(v.as_str(), usize::MAX as u64) {
            Some(n) => n as usize,
            None => 0,
        },
        None => 0,
    };
    assert(request@.body =~= Seq::<u8>::empty());
    (request, len)
}

/// Take a head apart. Bytes that are not UTF-8 are replaced first.
pub fn parse_head(buf: &Vec<u8>) -> (r: (RecordedRequest, usize))
    ensures
        r.0@ == head_request(crate::text::lossy(buf@)),
        r.1 == announced_length(r.0@.headers),
{
    let head = from_utf8_lossy(buf);
    parse_head_text(head.as_str())
}

// ---------- laws ----------

/// A cut-off response announces the whole body and sends a proper beginning of
/// it.
pub proof fn a_cut_body_falls_short(body: Seq<u8>, n: usize)
    requires
        n < body.len(),
    ensures
        sent(body, Some(n)).len() == n,
        sent(body, Some(n)).is_prefix_of(body),
        sent(body, Some(n)) != body,
        sent(body, None) == body,
{
}

/// Every response head ends with a blank line, whatever its headers.
pub proof fn response_heads_end_with_a_blank_line(
    status: u16,
    content_type: Seq<char>,
    len: nat,
    headers: Seq<(String, String)>,
)
    ensures
        ({
            let head = head_text(status, content_type, len, headers);
            head.len() >= 4 && head.subrange(head.len() - 4, head.len() as int) == seq![
                '\r',
                '\n',
                '\r',
                '\n',
            ]
        }),
{
    reveal_strlit("\r\n");
    let head = head_text(status, content_type, len, headers);
    let front = "HTTP/1.1 "@ + crate::text::decimal(status as nat) + " X\r\ncontent-type: "@
        + content_type + "\r\ncontent-length: "@ + crate::text::decimal(len) + "\r\n"@;
    let lines = header_lines(headers, headers.len());
    lemma_header_lines_end(headers, headers.len());
    assert(head =~= front + lines + "\r\n"@);
    assert(head.subrange(head.len() - 4, head.len() as int) =~= seq!['\r', '\n', '\r', '\n']);
}

proof fn lemma_header_lines_end(headers: Seq<(String, String)>, n: nat)
    ensures
        ({
            let lines = header_lines(headers, n);
            lines.len() == 0 || (lines.len() >= 2 && lines[lines.len() - 2] == '\r' && lines.last()
                == '\n')
        }),
{
    reveal_strlit("\r\n");
    if n > 0 {
        let before = header_lines(headers, (n - 1) as nat);
        let line = headers[n - 1].0@ + ": "@ + headers[n - 1].1@ + "\r\n"@;
        assert(line[line.len() - 2] == '\r' && line.last() == '\n');
        assert(header_lines(headers, n) =~= before + line);
    }
}

// ---------- requests read as they were sent ----------

/// The text of a query with these names and values.
pub open spec fn query_text(names: Seq<Seq<char>>, values: Seq<Seq<char>>) -> Seq<char> {
    crate::text::listed(Seq::new(names.len(), |i: int| names[i] + seq!['='] + values[i]), '&')
}

/// The lines of a request: its method and target, its header fields and the
/// blank line.
pub open spec fn request_lines(
    method: Seq<char>,
    target: Seq<char>,
    names: Seq<Seq<char>>,
    values: Seq<Seq<char>>,
) -> Seq<Seq<char>> {
    seq![crate::text::listed(seq![method, target, "HTTP/1.1"@], ' ')] + Seq::new(
        names.len(),
        |i: int| names[i] + seq![':'] + (seq![' '] + values[i]),
    ) + seq![Seq::empty()]
}

/// Pairs of a query are read as the values that they give to their names.
pub proof fn queries_are_read_as_they_are_written(
    names: Seq<Seq<char>>,
    values: Seq<Seq<char>>,
    n: nat,
)
    requires
        names.len() == values.len(),
        n <= names.len(),
        names.no_duplicates(),
        forall|i: int| 0 <= i < names.len() ==> !(#[trigger] names[i]).contains('='),
    ensures
        ({
            let pairs = Seq::new(names.len(), |i: int| names[i] + seq!['='] + values[i]);
            &&& forall|k: Seq<char>| #[trigger]
                query_upto(pairs, n).contains_key(k) <==> names.take(n as int).contains(k)
            &&& forall|i: int| 0 <= i < n ==> query_upto(pairs, n)[#[trigger] names[i]] == values[i]
        }),
    decreases n,
{
    let pairs = Seq::new(names.len(), |i: int| names[i] + seq!['='] + values[i]);
    if n > 0 {
        let m = (n - 1) as nat;
        let k = m as int;
        queries_are_read_as_they_are_written(names, values, m);
        reveal_strlit("=");
        assert("="@ =~= seq!['=']);
        assert(pairs[k] == names[k] + seq!['='] + values[k]);
        crate::text::texts_are_cut_at_the_first_mark(names[k], '=', values[k]);
        assert(names.take(n as int) =~= names.take(k).push(names[k]));
        let before = query_upto(pairs, m);
        let after = query_upto(pairs, n);
        assert(after == before.insert(names[k], values[k]));
        assert forall|q: Seq<char>| #[trigger]
            after.contains_key(q) <==> names.take(n as int).contains(q) by {
            assert(before.contains_key(q) <==> names.take(k).contains(q));
            if names.take(k).contains(q) {
                let i = names.take(k).index_of(q);
                assert(names.take(n as int)[i] == q);
            }
            assert(names.take(n as int)[k] == names[k]);
            if names.take(n as int).contains(q) && q != names[k] {
                let i = names.take(n as int).index_of(q);
                assert(names.take(k)[i] == q);
            }
        }
        assert forall|i: int| 0 <= i < n implies after[#[trigger] names[i]] == values[i] by {
            if i < k {
                assert(names[i] != names[k]);
            }
        }
    } else {
        assert(names.take(0) =~= Seq::<Seq<char>>::empty());
    }
}

proof fn lemma_headers(
    lines: Seq<Seq<char>>,
    names: Seq<Seq<char>>,
    values: Seq<Seq<char>>,
    n: nat,
    i: int,
)
    requires
        names.len() == values.len(),
        n <= names.len() < lines.len(),
        forall|j: int|
            0 <= j < names.len() ==> lines[j + 1] == #[trigger] names[j] + seq![':'] + (seq![' ']
                + values[j]),
        forall|j: int|
            0 <= j < names.len() ==> !(#[trigger] names[j]).contains(':')
                && crate::text::plain_word(names[j]),
        forall|j: int|
            0 <= j < values.len() ==> (#[trigger] values[j]).len() > 0 && !crate::text::is_white(
                values[j][0],
            ) && !crate::text::is_white(values[j].last()),
        forall|j: int, k: int|
            0 <= j < k < names.len() ==> crate::text::lowered(#[trigger] names[j])
                != crate::text::lowered(#[trigger] names[k]),
        0 <= i < n,
    ensures
        headers_upto(lines, n + 1).contains_key(crate::text::lowered(names[i])),
        headers_upto(lines, n + 1)[crate::text::lowered(names[i])] == values[i],
    decreases n,
{
    let k = n - 1;
    reveal_strlit(":");
    assert(":"@ =~= seq![':']);
    assert(lines[k + 1] == names[k] + seq![':'] + (seq![' '] + values[k]));
    crate::text::texts_are_cut_at_the_first_mark(names[k], ':', seq![' '] + values[k]);
    crate::text::blanks_before_are_trimmed(values[k]);
    crate::text::line_feeds_are_trimmed(names[k]);
    if i < k {
        lemma_headers(lines, names, values, k as nat, i);
        assert(crate::text::lowered(names[i]) != crate::text::lowered(names[k]));
    }
}

/// A request is read as it was sent: its method, its path, each pair of its
/// query and each of its header fields, by its lowercase name.
pub proof fn requests_are_read_as_they_are_sent(
    method: Seq<char>,
    path: Seq<char>,
    keys: Seq<Seq<char>>,
    texts: Seq<Seq<char>>,
    names: Seq<Seq<char>>,
    values: Seq<Seq<char>>,
    k: int,
    i: int,
)
    requires
        !method.contains(' ') && !method.contains('\r'),
        !path.contains(' ') && !path.contains('\r') && !path.contains('?'),
        keys.len() == texts.len(),
        keys.len() > 0,
        keys.no_duplicates(),
        forall|j: int|
            0 <= j < keys.len() ==> !(#[trigger] keys[j]).contains('=') && !keys[j].contains('&'),
        forall|j: int| 0 <= j < texts.len() ==> !(#[trigger] texts[j]).contains('&'),
        !query_text(keys, texts).contains(' ') && !query_text(keys, texts).contains('\r'),
        names.len() == values.len(),
        forall|j: int|
            0 <= j < names.len() ==> !(#[trigger] names[j]).contains(':')
                && crate::text::plain_word(names[j]),
        forall|j: int|
            0 <= j < values.len() ==> (#[trigger] values[j]).len() > 0 && !crate::text::is_white(
                values[j][0],
            ) && !crate::text::is_white(values[j].last()) && !values[j].contains('\r'),
        forall|j: int, m: int|
            0 <= j < m < names.len() ==> crate::text::lowered(#[trigger] names[j])
                != crate::text::lowered(#[trigger] names[m]),
        0 <= k < keys.len(),
        0 <= i < names.len(),
    ensures
        ({
            let r = head_request(
                crate::text::returned(
                    request_lines(method, path + seq!['?'] + query_text(keys, texts), names, values),
                ),
            );
            &&& r.method == method
            &&& r.path == path
            &&& r.query.contains_key(keys[k])
            &&& r.query[keys[k]] == texts[k]
            &&& r.headers.contains_key(crate::text::lowered(names[i]))
            &&& r.headers[crate::text::lowered(names[i])] == values[i]
            &&& r.body.len() == 0
        }),
{
    reveal_strlit("\r\n");
    reveal_strlit("?");
    reveal_strlit("HTTP/1.1");
    assert("\r\n"@ =~= seq!['\r', '\n']);
    assert("?"@ =~= seq!['?']);
    let query = query_text(keys, texts);
    let target = path + seq!['?'] + query;
    let sent_lines = request_lines(method, target, names, values);
    let first = seq![method, target, "HTTP/1.1"@];
    let line = crate::text::listed(first, ' ');
    lemma_target(path, query);
    assert forall|j: int| 0 <= j < first.len() implies !(#[trigger] first[j]).contains(' ') by {}
    crate::text::lists_are_split_into_their_items(first, ' ');
    lemma_request_line(method, target);
    assert(sent_lines[0] == line);
    assert forall|j: int| 0 <= j < sent_lines.len() implies !(#[trigger] sent_lines[j]).contains(
        '\r',
    ) by {
        if 0 < j <= names.len() {
            assert(sent_lines[j] == names[j - 1] + seq![':'] + (seq![' '] + values[j - 1]));
            lemma_field_line(names[j - 1], values[j - 1]);
        }
    }
    crate::text::returned_lines_come_apart(sent_lines);
    let lines = sent_lines.push(Seq::empty());
    assert(lines[0] == line);
    crate::text::texts_are_cut_at_the_first_mark(path, '?', query);
    let pairs = Seq::new(keys.len(), |j: int| keys[j] + seq!['='] + texts[j]);
    assert forall|j: int| 0 <= j < pairs.len() implies !(#[trigger] pairs[j]).contains('&') by {
        let p = pairs[j];
        assert(p == keys[j] + seq!['='] + texts[j]);
        if p.contains('&') {
            let c = p.index_of('&');
            if c < keys[j].len() {
                assert(keys[j][c] == '&');
            } else if c > keys[j].len() {
                assert(texts[j][c - keys[j].len() - 1] == '&');
            }
        }
    }
    crate::text::lists_are_split_into_their_items(pairs, '&');
    queries_are_read_as_they_are_written(keys, texts, keys.len());
    assert(keys.take(keys.len() as int) =~= keys);
    assert(keys.contains(keys[k]));
    assert forall|j: int| 0 <= j < names.len() implies lines[j + 1] == #[trigger] names[j] + seq![
        ':',
    ] + (seq![' '] + values[j]) by {
        assert(lines[j + 1] == sent_lines[j + 1]);
    }
    lemma_headers(lines, names, values, names.len(), i);
    let n = names.len() as nat;
    assert(lines.len() == n + 3);
    assert(lines[n as int + 1].len() == 0);
    assert(lines[n as int + 2].len() == 0);
    reveal_strlit(":");
    assert(":"@ =~= seq![':']);
    crate::text::texts_without_the_mark_are_whole(lines[n as int + 1], ':');
    crate::text::texts_without_the_mark_are_whole(lines[n as int + 2], ':');
    assert(headers_upto(lines, n + 2) == headers_upto(lines, n + 1));
    assert(headers_upto(lines, n + 3) == headers_upto(lines, n + 2));
}

proof fn lemma_target(path: Seq<char>, query: Seq<char>)
    requires
        !path.contains(' ') && !path.contains('\r'),
        !query.contains(' ') && !query.contains('\r'),
    ensures
        !(path + seq!['?'] + query).contains(' '),
        !(path + seq!['?'] + query).contains('\r'),
{
    let t = path + seq!['?'] + query;
    assert forall|j: int| 0 <= j < t.len() implies #[trigger] t[j] != ' ' && t[j] != '\r' by {
        if j < path.len() {
            assert(path.contains(path[j]));
        } else if j > path.len() {
            assert(query.contains(query[j - path.len() - 1]));
        }
    }
}

proof fn lemma_request_line(method: Seq<char>, target: Seq<char>)
    requires
        !method.contains('\r'),
        !target.contains('\r'),
    ensures
        !crate::text::listed(seq![method, target, "HTTP/1.1"@], ' ').contains('\r'),
{
    reveal_strlit("HTTP/1.1");
    let v = "HTTP/1.1"@;
    let all = seq![method, target, v];
    let two = seq![target, v];
    assert(all.drop_first() =~= two);
    assert(two.drop_first() =~= seq![v]);
    assert(crate::text::listed(seq![v], ' ') == v);
    assert(crate::text::listed(two, ' ') == target + seq![' '] + v);
    let t = method + seq![' '] + (target + seq![' '] + v);
    assert(crate::text::listed(all, ' ') == t);
    assert forall|j: int| 0 <= j < t.len() implies #[trigger] t[j] != '\r' by {
        if j < method.len() {
            assert(method.contains(method[j]));
        } else if method.len() < j < method.len() + 1 + target.len() {
            assert(target.contains(target[j - method.len() - 1]));
        }
    }
}

proof fn lemma_field_line(name: Seq<char>, value: Seq<char>)
    requires
        crate::text::plain_word(name),
        !value.contains('\r'),
    ensures
        !(name + seq![':'] + (seq![' '] + value)).contains('\r'),
{
    let t = name + seq![':'] + (seq![' '] + value);
    crate::text::characters_are_classed_by_range('\r');
    assert forall|j: int| 0 <= j < t.len() implies #[trigger] t[j] != '\r' by {
        if j < name.len() {
            assert(!crate::text::is_white(name[j]));
        } else if j > name.len() + 1 {
            assert(value.contains(value[j - name.len() - 2]));
        }
    }
}

/// The body is as long as its header says in digits, and empty where no header
/// says so.
pub proof fn bodies_are_announced_by_their_length(headers: Map<Seq<char>, Seq<char>>, n: usize)
    ensures
        announced_length(headers.insert("content-length"@, crate::text::decimal(n as nat))) == n,
        announced_length(headers.remove("content-length"@)) == 0,
{
    crate::text::numerals_are_read_up_to_a_limit(n as nat, usize::MAX as nat);
}

/// A head ends exactly where a blank line does.
pub proof fn heads_end_at_the_blank_line(before: Seq<u8>, buf: Seq<u8>)
    ensures
        ends_head(before + seq![0x0du8, 0x0au8, 0x0du8, 0x0au8]),
        ends_head(buf) ==> buf == buf.take(buf.len() - 4) + seq![0x0du8, 0x0au8, 0x0du8, 0x0au8],
{
    if ends_head(buf) {
        assert(buf =~= buf.take(buf.len() - 4) + seq![0x0du8, 0x0au8, 0x0du8, 0x0au8]);
    }
}

proof fn lemma_extra_headers(headers: Seq<(String, String)>, n: nat, tail: Seq<Seq<char>>)
    requires
        n <= headers.len(),
    ensures
        header_lines(headers, n) + crate::text::returned(tail) == crate::text::returned(
            Seq::new(n, |i: int| headers[i].0@ + ": "@ + headers[i].1@) + tail,
        ),
    decreases n,
{
    let all = Seq::new(n, |i: int| headers[i].0@ + ": "@ + headers[i].1@);
    if n == 0 {
        assert(all + tail =~= tail);
        assert(header_lines(headers, 0) + crate::text::returned(tail) =~= crate::text::returned(
            tail,
        ));
    } else {
        let m = (n - 1) as nat;
        let front = Seq::new(m, |i: int| headers[i].0@ + ": "@ + headers[i].1@);
        let line = headers[n - 1].0@ + ": "@ + headers[n - 1].1@;
        let longer = seq![line] + tail;
        reveal_strlit("\r\n");
        assert("\r\n"@ =~= seq!['\r', '\n']);
        lemma_extra_headers(headers, m, longer);
        assert(longer.drop_first() =~= tail);
        assert(crate::text::returned(longer) == line + seq!['\r', '\n'] + crate::text::returned(
            tail,
        ));
        assert(front + longer =~= all + tail);
        assert(header_lines(headers, n) + crate::text::returned(tail) =~= header_lines(headers, m)
            + crate::text::returned(longer));
    }
}

/// The head of a response, line by line: its status, the type and the length of
/// its body, its extra headers in their order, and a blank line.
pub proof fn responses_are_headed_line_by_line(
    status: u16,
    content_type: Seq<char>,
    len: nat,
    headers: Seq<(String, String)>,
)
    ensures
        head_text(status, content_type, len, headers) == crate::text::returned(
            seq![
                "HTTP/1.1 "@ + crate::text::decimal(status as nat) + " X"@,
                "content-type: "@ + content_type,
                "content-length: "@ + crate::text::decimal(len),
            ] + Seq::new(headers.len(), |i: int| headers[i].0@ + ": "@ + headers[i].1@) + seq![
                Seq::empty(),
            ],
        ),
{
    reveal_strlit(" X");
    reveal_strlit("content-type: ");
    reveal_strlit("content-length: ");
    reveal_strlit(" X\r\ncontent-type: ");
    reveal_strlit("\r\ncontent-length: ");
    reveal_strlit("\r\n");
    let nl = seq!['\r', '\n'];
    assert("\r\n"@ =~= nl);
    assert(" X\r\ncontent-type: "@ =~= " X"@ + nl + "content-type: "@);
    assert("\r\ncontent-length: "@ =~= nl + "content-length: "@);
    let a = "HTTP/1.1 "@ + crate::text::decimal(status as nat) + " X"@;
    let b = "content-type: "@ + content_type;
    let c = "content-length: "@ + crate::text::decimal(len);
    let all = Seq::new(headers.len(), |i: int| headers[i].0@ + ": "@ + headers[i].1@);
    let last = seq![Seq::<char>::empty()];
    let rest = all + last;
    lemma_extra_headers(headers, headers.len(), last);
    assert(last.drop_first() =~= Seq::<Seq<char>>::empty());
    assert(crate::text::returned(last.drop_first()) =~= Seq::<char>::empty());
    assert(crate::text::returned(last) =~= nl);
    let whole = seq![a, b, c] + all + last;
    let w1 = whole.drop_first();
    let w2 = w1.drop_first();
    assert(w2.drop_first() =~= rest);
    assert(crate::text::returned(w2) == c + nl + crate::text::returned(rest));
    assert(crate::text::returned(w1) == b + nl + crate::text::returned(w2));
    assert(crate::text::returned(whole) == a + nl + crate::text::returned(w1));
    assert(head_text(status, content_type, len, headers) =~= crate::text::returned(whole));
}

/// A JSON answer carries its status and its body whole, at once and as JSON.
pub proof fn json_answers_are_whole(answer: ResponseSpec, status: u16, body: Seq<u8>)
    ensures
        answer.answers_json(status, body) <==> {
            &&& answer.status == status
            &&& answer.body@ == body
            &&& answer.content_type@ == "application/json"@
            &&& answer.delay == 0
            &&& answer.drop_after is None
            &&& answer.headers@.len() == 0
        },
{
}

/// What a request line leaves out is empty.
pub proof fn missing_parts_are_empty(parts: Seq<Seq<char>>, i: int)
    requires
        0 <= i,
    ensures
        i < parts.len() ==> piece(parts, i) == parts[i],
        i >= parts.len() ==> piece(parts, i).len() == 0,
{
}

} // verus!
