//! The language-server protocol as the client speaks it: message framing,
//! the header lines of incoming messages, the reading of hover, completion
//! and definition replies, and what the client does with each message the
//! server sends.

use vstd::prelude::*;
use std::collections::HashMap;

use crate::chars::{chars_of, string_from_chars};
use crate::decimal::{decimal, decimal_chars, lemma_decimal_value, lemma_parse_decimal, parse_usize, parse_usize_chars};
use crate::text_model::{LspPosition, LspRange};
use crate::textutil::{lemma_trimmed_between, lemma_trimmed_blank, str_eq, trim, trimmed};

verus! {

broadcast use vstd::std_specs::hash::group_hash_axioms;

/// A JSON value, holding what the client reads of it.  A number is held as
/// the unsigned and the signed 64-bit integer it can be read as, if any.
pub enum JsonValue {
    Null,
    Bool(bool),
    Number(Option<u64>, Option<i64>),
    String(String),
    Array(Vec<JsonValue>),
    Object(Vec<(String, JsonValue)>),
}

/// The value of the first member named `key`.
pub open spec fn obj_get(entries: Seq<(String, JsonValue)>, key: Seq<char>) -> Option<JsonValue>
    decreases entries.len(),
{
    if entries.len() == 0 {
        None
    } else if entries[0].0@ == key {
        Some(entries[0].1)
    } else {
        obj_get(entries.drop_first(), key)
    }
}

/// The member `key` of an object; nothing for other values.
pub open spec fn get(v: JsonValue, key: Seq<char>) -> Option<JsonValue> {
    match v {
        JsonValue::Object(e) => obj_get(e@, key),
        _ => None,
    }
}

/// The text of a string value.
pub open spec fn str_of(v: Option<JsonValue>) -> Option<Seq<char>> {
    match v {
        Some(JsonValue::String(s)) => Some(s@),
        _ => None,
    }
}

/// A number read as an unsigned 64-bit integer.
pub open spec fn u64_of(v: Option<JsonValue>) -> Option<u64> {
    match v {
        Some(JsonValue::Number(u, _)) => u,
        _ => None,
    }
}

/// A number read as a signed 64-bit integer.
pub open spec fn i64_of(v: Option<JsonValue>) -> Option<i64> {
    match v {
        Some(JsonValue::Number(_, i)) => i,
        _ => None,
    }
}

proof fn lemma_obj_get_skip(entries: Seq<(String, JsonValue)>, key: Seq<char>, i: int)
    requires
        0 <= i <= entries.len(),
        forall|j: int| 0 <= j < i ==> (#[trigger] entries[j]).0@ != key,
    ensures
        obj_get(entries, key) == obj_get(entries.skip(i), key),
    decreases i,
{
    if i > 0 {
        let t = entries.drop_first();
        assert forall|j: int| 0 <= j < i - 1 implies (#[trigger] t[j]).0@ != key by {
            assert(t[j] == entries[j + 1]);
        }
        lemma_obj_get_skip(t, key, i - 1);
        assert(t.skip(i - 1) =~= entries.skip(i));
        assert(entries[0].0@ != key);
    } else {
        assert(entries.skip(0) =~= entries);
    }
}

/// `Value::get`: the member `key` of an object.
pub fn json_get<'a>(v: &'a JsonValue, key: &str) -> (res: Option<&'a JsonValue>)
    ensures
        match res {
            Some(r) => get(*v, key@) == Some(*r),
            None => get(*v, key@) is None,
        },
{
    match v {
        JsonValue::Object(entries) => {
            let n = entries.len();
            let mut i: usize = 0;
            while i < n
                invariant
                    n == entries@.len(),
                    i <= n,
                    get(*v, key@) == obj_get(entries@, key@),
                    forall|j: int| 0 <= j < i ==> (#[trigger] entries@[j]).0@ != key@,
                decreases n - i,
            {
                if str_eq(entries[i].0.as_str(), key) {
                    proof {
                        lemma_obj_get_skip(entries@, key@, i as int);
                        assert(entries@.skip(i as int)[0] == entries@[i as int]);
                    }
                    return Some(&entries[i].1);
                }
                i = i + 1;
            }
            proof {
                lemma_obj_get_skip(entries@, key@, n as int);
                assert(entries@.skip(n as int) =~= Seq::<(String, JsonValue)>::empty());
            }
            None
        },
        _ => None,
    }
}

/// `Value::as_str` of an optional value.
pub fn json_str(v: Option<&JsonValue>) -> (res: Option<&String>)
    ensures
        match res {
            Some(s) => str_of(opt_deref(v)) == Some(s@),
            None => str_of(opt_deref(v)) is None,
        },
{
    match v {
        Some(JsonValue::String(s)) => Some(s),
        _ => None,
    }
}

/// `Value::as_u64` of an optional value.
pub fn json_u64(v: Option<&JsonValue>) -> (res: Option<u64>)
    ensures
        res == u64_of(opt_deref(v)),
{
    match v {
        Some(JsonValue::Number(u, _)) => *u,
        _ => None,
    }
}

/// An optional reference as an optional value.
pub open spec fn opt_deref(v: Option<&JsonValue>) -> Option<JsonValue> {
    match v {
        Some(r) => Some(*r),
        None => None,
    }
}

/// Lines joined by newlines.
pub open spec fn join_lines(parts: Seq<Seq<char>>) -> Seq<char>
    decreases parts.len(),
{
    if parts.len() == 0 {
        Seq::empty()
    } else if parts.len() == 1 {
        parts[0]
    } else {
        join_lines(parts.drop_last()) + seq!['\n'] + parts.last()
    }
}

/// The text of hover contents: a string; the texts of the items of an
/// array, joined by newlines (none if no item has one); or the string
/// `value` member of an object.
pub open spec fn hover_text(v: JsonValue) -> Option<Seq<char>>
    decreases v,
{
    match v {
        JsonValue::String(t) => Some(t@),
        JsonValue::Array(items) => {
            let parts = hover_parts(items@);
            if parts.len() == 0 {
                None
            } else {
                Some(join_lines(parts))
            }
        },
        JsonValue::Object(e) => str_of(obj_get(e@, "value"@)),
        _ => None,
    }
}

/// The hover texts of the items that have one, in order.
pub open spec fn hover_parts(items: Seq<JsonValue>) -> Seq<Seq<char>>
    decreases items,
{
    if items.len() == 0 {
        Seq::empty()
    } else {
        let prev = hover_parts(items.drop_last());
        match hover_text(items.last()) {
            Some(t) => prev.push(t),
            None => prev,
        }
    }
}

/// The text of the contents of a hover reply.
pub open spec fn hover_reply_text(result: JsonValue) -> Option<Seq<char>> {
    match get(result, "contents"@) {
        Some(c) => hover_text(c),
        None => None,
    }
}

/// The text of hover contents.
pub fn hover_text_from_contents(value: &JsonValue) -> (res: Option<String>)
    ensures
        match res {
            Some(s) => hover_text(*value) == Some(s@),
            None => hover_text(*value) is None,
        },
    decreases value,
{
    match value {
        JsonValue::String(t) => Some(t.clone()),
        JsonValue::Array(items) => {
            let mut out: Vec<char> = Vec::new();
            let mut count: usize = 0;
            let n = items.len();
            let mut i: usize = 0;
            proof {
                assert(items@.take(0) =~= Seq::<JsonValue>::empty());
            }
            while i < n
                invariant
                    n == items@.len(),
                    *value == JsonValue::Array(*items),
                    i <= n,
                    count == hover_parts(items@.take(i as int)).len(),
                    out@ == join_lines(hover_parts(items@.take(i as int))),
                    count <= i,
                decreases n - i,
            {
                proof {
                    assert(items@.take(i + 1).drop_last() =~= items@.take(i as int));
                    assert(items@.take(i + 1).last() == items@[i as int]);
                    assert(decreases_to!(*value => (*value)->Array_0));
                    assert((*value)->Array_0 == *items);
                    assert(decreases_to!(*items => items@));
                    assert(decreases_to!(items@ => items@[i as int]));
                }
                match hover_text_from_contents(&items[i]) {
                    Some(t) => {
                        let ghost prev = hover_parts(items@.take(i as int));
                        if count > 0 {
                            out.push('\n');
                        }
                        let tc = chars_of(t.as_str());
                        let mut k: usize = 0;
                        let ghost base = out@;
                        while k < tc.len()
                            invariant
                                k <= tc@.len(),
                                out@ == base + tc@.take(k as int),
                            decreases tc@.len() - k,
                        {
                            out.push(tc[k]);
                            proof {
                                assert(tc@.take(k + 1) =~= tc@.take(k as int).push(tc@[k as int]));
                            }
                            k = k + 1;
                        }
                        proof {
                            assert(tc@.take(tc@.len() as int) =~= tc@);
                            let now = prev.push(t@);
                            if prev.len() == 0 {
                                assert(now =~= seq![t@]);
                                assert(join_lines(now) == t@);
                                assert(out@ =~= t@);
                            } else {
                                assert(now.drop_last() =~= prev);
                                assert(out@ =~= join_lines(prev) + seq!['\n'] + t@);
                            }
                        }
                        count = count + 1;
                    },
                    None => {},
                }
                i = i + 1;
            }
            proof {
                assert(items@.take(n as int) =~= items@);
            }
            if count == 0 {
                None
            } else {
                Some(string_from_chars(out.as_slice()))
            }
        },
        JsonValue::Object(_) => {
            match json_str(json_get(value, "value")) {
                Some(s) => Some(s.clone()),
                None => None,
            }
        },
        _ => None,
    }
}

/// The text of the contents of a hover reply, if it has some.
pub fn parse_hover_text(result: &JsonValue) -> (res: Option<String>)
    ensures
        match res {
            Some(s) => hover_reply_text(*result) == Some(s@),
            None => hover_reply_text(*result) is None,
        },
{
    match json_get(result, "contents") {
        Some(c) => hover_text_from_contents(c),
        None => None,
    }
}

/// The labels of completion items that have a string label, in order.
pub open spec fn labels(items: Seq<JsonValue>) -> Seq<Seq<char>>
    decreases items.len(),
{
    if items.len() == 0 {
        Seq::empty()
    } else {
        let prev = labels(items.drop_last());
        match str_of(get(items.last(), "label"@)) {
            Some(l) => prev.push(l),
            None => prev,
        }
    }
}

/// The completion items of a reply: the reply itself when it is an array,
/// else its `items` member when that is an array.
pub open spec fn completion_items(result: JsonValue) -> Seq<JsonValue> {
    match result {
        JsonValue::Array(a) => a@,
        _ => match get(result, "items"@) {
            Some(JsonValue::Array(a)) => a@,
            _ => Seq::empty(),
        },
    }
}

/// The labels of the completion items of a reply.
pub fn parse_completion_items(result: &JsonValue) -> (res: Vec<String>)
    ensures
        res@.map_values(|s: String| s@) == labels(completion_items(*result)),
{
    let empty: Vec<JsonValue> = Vec::new();
    let items: &Vec<JsonValue> = match result {
        JsonValue::Array(a) => a,
        _ => match json_get(result, "items") {
            Some(JsonValue::Array(a)) => a,
            _ => &empty,
        },
    };
    proof {
        assert(items@ == completion_items(*result)) by {
            assert(empty@ =~= Seq::<JsonValue>::empty());
        }
    }
    let mut out: Vec<String> = Vec::new();
    let n = items.len();
    let mut i: usize = 0;
    proof {
        assert(items@.take(0) =~= Seq::<JsonValue>::empty());
        assert(out@.map_values(|s: String| s@) =~= Seq::<Seq<char>>::empty());
    }
    while i < n
        invariant
            n == items@.len(),
            i <= n,
            out@.map_values(|s: String| s@) == labels(items@.take(i as int)),
        decreases n - i,
    {
        proof {
            assert(items@.take(i + 1).drop_last() =~= items@.take(i as int));
            assert(items@.take(i + 1).last() == items@[i as int]);
        }
        match json_str(json_get(&items[i], "label")) {
            Some(l) => {
                let ghost before = out@;
                out.push(l.clone());
                proof {
                    assert(out@.map_values(|s: String| s@) =~= before.map_values(|s: String| s@).push(l@));
                }
            },
            None => {},
        }
        i = i + 1;
    }
    proof {
        assert(items@.take(n as int) =~= items@);
    }
    out
}

/// A position member (`line`, `character`), each number cut to 32 bits.
pub open spec fn position_of(p: Option<JsonValue>) -> Option<LspPosition> {
    match p {
        Some(v) => match (u64_of(get(v, "line"@)), u64_of(get(v, "character"@))) {
            (Some(l), Some(c)) => Some(LspPosition { line: l as u32, character: c as u32 }),
            _ => None,
        },
        None => None,
    }
}

/// A range value (`start`, `end`).
pub open spec fn range_of(r: Option<JsonValue>) -> Option<LspRange> {
    match r {
        Some(v) => match (position_of(get(v, "start"@)), position_of(get(v, "end"@))) {
            (Some(s), Some(e)) => Some(LspRange { start: s, end: e }),
            _ => None,
        },
        None => None,
    }
}

/// A location: its `uri` and its `range`.
pub open spec fn location_of(loc: JsonValue) -> Option<(Seq<char>, LspRange)> {
    match (str_of(get(loc, "uri"@)), range_of(get(loc, "range"@))) {
        (Some(u), Some(r)) => Some((u, r)),
        _ => None,
    }
}

/// A location link: its `targetUri` and its `targetSelectionRange`, or its
/// `targetRange` when there is no selection range.
pub open spec fn link_of(link: JsonValue) -> Option<(Seq<char>, LspRange)> {
    let rv = match get(link, "targetSelectionRange"@) {
        Some(x) => Some(x),
        None => get(link, "targetRange"@),
    };
    match (str_of(get(link, "targetUri"@)), range_of(rv)) {
        (Some(u), Some(r)) => Some((u, r)),
        _ => None,
    }
}

/// The location of a definition reply: the first element of an array (a
/// link if it has a `targetUri`, else a location), or a single location.
pub open spec fn definition_of(result: JsonValue) -> Option<(Seq<char>, LspRange)> {
    match result {
        JsonValue::Array(a) => if a@.len() == 0 {
            None
        } else if get(a@[0], "targetUri"@) is Some {
            link_of(a@[0])
        } else {
            location_of(a@[0])
        },
        JsonValue::Object(_) => location_of(result),
        _ => None,
    }
}

fn parse_position(p: Option<&JsonValue>) -> (res: Option<LspPosition>)
    ensures
        res == position_of(opt_deref(p)),
{
    match p {
        Some(v) => {
            let l = json_u64(json_get(v, "line"));
            let c = json_u64(json_get(v, "character"));
            match (l, c) {
                (Some(l), Some(c)) => Some(LspPosition { line: l as u32, character: c as u32 }),
                _ => None,
            }
        },
        None => None,
    }
}

fn parse_range(r: Option<&JsonValue>) -> (res: Option<LspRange>)
    ensures
        res == range_of(opt_deref(r)),
{
    match r {
        Some(v) => {
            let s = parse_position(json_get(v, "start"));
            let e = parse_position(json_get(v, "end"));
            match (s, e) {
                (Some(s), Some(e)) => Some(LspRange { start: s, end: e }),
                _ => None,
            }
        },
        None => None,
    }
}

fn extract_location(loc: &JsonValue) -> (res: Option<(String, LspRange)>)
    ensures
        match res {
            Some(x) => location_of(*loc) == Some((x.0@, x.1)),
            None => location_of(*loc) is None,
        },
{
    let uri = json_str(json_get(loc, "uri"));
    let range = parse_range(json_get(loc, "range"));
    match (uri, range) {
        (Some(u), Some(r)) => Some((u.clone(), r)),
        _ => None,
    }
}

fn extract_link(link: &JsonValue) -> (res: Option<(String, LspRange)>)
    ensures
        match res {
            Some(x) => link_of(*link) == Some((x.0@, x.1)),
            None => link_of(*link) is None,
        },
{
    let uri = json_str(json_get(link, "targetUri"));
    let rv = match json_get(link, "targetSelectionRange") {
        Some(x) => Some(x),
        None => json_get(link, "targetRange"),
    };
    let range = parse_range(rv);
    match (uri, range) {
        (Some(u), Some(r)) => Some((u.clone(), r)),
        _ => None,
    }
}

/// The location of a definition reply, if it names one.
pub fn parse_definition_location(result: &JsonValue) -> (res: Option<(String, LspRange)>)
    ensures
        match res {
            Some(x) => definition_of(*result) == Some((x.0@, x.1)),
            None => definition_of(*result) is None,
        },
{
    match result {
        JsonValue::Array(a) => {
            if a.len() == 0 {
                None
            } else if json_get(&a[0], "targetUri").is_some() {
                extract_link(&a[0])
            } else {
                extract_location(&a[0])
            }
        },
        JsonValue::Object(_) => extract_location(result),
        _ => None,
    }
}

/// What a header line of an incoming message tells the reader.
#[derive(Clone, Copy, PartialEq, Eq, Debug)]
pub enum HeaderLine {
    /// The blank line that ends the headers.
    End,
    /// Another header; the content length known after it.
    Header(Option<usize>),
}

/// The characters of `Content-Length:`.
pub open spec fn content_length_key() -> Seq<char> {
    "Content-Length:"@
}

/// What a header line tells, given the content length known before it: a
/// blank line ends the headers; a `Content-Length:` header with a valid
/// number sets the length; any other line leaves it as it was.
pub open spec fn header_step(line: Seq<char>, known: Option<usize>) -> HeaderLine {
    let t = trimmed(line);
    let k = content_length_key();
    if t.len() == 0 {
        HeaderLine::End
    } else if t.len() >= k.len() && t.take(k.len() as int) == k {
        match parse_usize(trimmed(t.skip(k.len() as int))) {
            Some(v) => HeaderLine::Header(Some(v as usize)),
            None => HeaderLine::Header(known),
        }
    } else {
        HeaderLine::Header(known)
    }
}

fn starts_with(t: &Vec<char>, p: &Vec<char>) -> (res: bool)
    ensures
        res == (t@.len() >= p@.len() && t@.take(p@.len() as int) == p@),
{
    if t.len() < p.len() {
        return false;
    }
    let mut i: usize = 0;
    while i < p.len()
        invariant
            i <= p@.len() <= t@.len(),
            forall|j: int| 0 <= j < i ==> t@[j] == p@[j],
        decreases p@.len() - i,
    {
        if t[i] != p[i] {
            proof {
                assert(t@.take(p@.len() as int)[i as int] != p@[i as int]);
            }
            return false;
        }
        i = i + 1;
    }
    proof {
        assert(t@.take(p@.len() as int) =~= p@);
    }
    true
}

/// Reads one header line of an incoming message.
pub fn read_header_line(line: &str, known: Option<usize>) -> (res: HeaderLine)
    ensures
        res == header_step(line@, known),
{
    let t = trim(line);
    let tc = chars_of(t.as_str());
    if tc.len() == 0 {
        return HeaderLine::End;
    }
    let key = chars_of("Content-Length:");
    if starts_with(&tc, &key) {
        let mut rest: Vec<char> = Vec::new();
        let mut i = key.len();
        while i < tc.len()
            invariant
                key@.len() <= i <= tc@.len(),
                rest@ == tc@.subrange(key@.len() as int, i as int),
            decreases tc@.len() - i,
        {
            rest.push(tc[i]);
            proof {
                assert(tc@.subrange(key@.len() as int, i + 1) =~= tc@.subrange(key@.len() as int, i as int).push(tc@[i as int]));
            }
            i = i + 1;
        }
        proof {
            assert(rest@ =~= tc@.skip(key@.len() as int));
        }
        let value = trim(string_from_chars(rest.as_slice()).as_str());
        let vc = chars_of(value.as_str());
        match parse_usize_chars(&vc) {
            Some(v) => HeaderLine::Header(Some(v)),
            None => HeaderLine::Header(known),
        }
    } else {
        HeaderLine::Header(known)
    }
}

/// The bytes of an ASCII text.
pub open spec fn ascii_bytes(s: Seq<char>) -> Seq<u8> {
    s.map_values(|c: char| c as u8)
}

/// A message body framed with its `Content-Length` header.
pub open spec fn framed(body: Seq<u8>) -> Seq<u8> {
    ascii_bytes("Content-Length: "@ + decimal(body.len()) + "\r\n\r\n"@) + body
}

/// Frames a message body with its `Content-Length` header.
pub fn frame_message(body: &Vec<u8>) -> (res: Vec<u8>)
    ensures
        res@ == framed(body@),
{
    let mut head: Vec<char> = chars_of("Content-Length: ");
    let mut d = decimal_chars(body.len());
    head.append(&mut d);
    let mut tail = chars_of("\r\n\r\n");
    head.append(&mut tail);
    let mut out: Vec<u8> = Vec::new();
    let mut i: usize = 0;
    while i < head.len()
        invariant
            i <= head@.len(),
            out@ == ascii_bytes(head@.take(i as int)),
        decreases head@.len() - i,
    {
        out.push(head[i] as u8);
        proof {
            assert(ascii_bytes(head@.take(i + 1)) =~= ascii_bytes(head@.take(i as int)).push(head@[i as int] as u8));
        }
        i = i + 1;
    }
    let mut j: usize = 0;
    let ghost hb = out@;
    while j < body.len()
        invariant
            j <= body@.len(),
            out@ == hb + body@.take(j as int),
        decreases body@.len() - j,
    {
        out.push(body[j]);
        proof {
            assert(body@.take(j + 1) =~= body@.take(j as int).push(body@[j as int]));
        }
        j = j + 1;
    }
    proof {
        assert(head@.take(head@.len() as int) =~= head@);
        assert(body@.take(body@.len() as int) =~= body@);
        assert(head@ =~= "Content-Length: "@ + decimal(body@.len()) + "\r\n\r\n"@);
    }
    out
}

/// The kinds of request whose replies the client waits for.
#[derive(Clone, Copy, PartialEq, Eq, Debug)]
pub enum LspRequestKind {
    Hover,
    Completion,
    Definition,
}

/// The request ids the client hands out, and the requests still waiting
/// for their reply.
pub struct RequestTracker {
    next: u64,
    pending: HashMap<u64, LspRequestKind>,
}

impl View for RequestTracker {
    type V = (u64, Map<u64, LspRequestKind>);

    closed spec fn view(&self) -> (u64, Map<u64, LspRequestKind>) {
        (self.next, self.pending@)
    }
}

impl RequestTracker {
    /// A tracker whose first id is 1, with nothing pending.
    pub fn new() -> (res: Self)
        ensures
            res@ == (1u64, Map::<u64, LspRequestKind>::empty()),
    {
        RequestTracker { next: 1, pending: HashMap::new() }
    }

    /// Hands out the next id; ids count up from 1, wrapping around.
    pub fn next_id(&mut self) -> (id: u64)
        ensures
            id == old(self)@.0,
            final(self)@ == (id.wrapping_add(1), old(self)@.1),
    {
        let id = self.next;
        self.next = self.next.wrapping_add(1);
        id
    }

    /// Hands out the next id for a request of `kind` and records it as waiting.
    pub fn begin(&mut self, kind: LspRequestKind) -> (id: u64)
        ensures
            id == old(self)@.0,
            final(self)@.0 == id.wrapping_add(1),
            final(self)@.1 == old(self)@.1.insert(id, kind),
    {
        let id = self.next_id();
        self.pending.insert(id, kind);
        id
    }

    /// Takes the request `id` off the waiting list, giving its kind.
    pub fn finish(&mut self, id: u64) -> (res: Option<LspRequestKind>)
        ensures
            final(self)@ == (old(self)@.0, old(self)@.1.remove(id)),
            res == (if old(self)@.1.contains_key(id) {
                Some(old(self)@.1[id])
            } else {
                None
            }),
    {
        let r = self.pending.remove(&id);
        proof {
            assert(self.pending@ =~= old(self).pending@.remove(id));
        }
        r
    }
}

/// What the client hands on to the application.
#[derive(Clone, Debug)]
pub enum LspEvent {
    /// Hover text (empty when the reply had none).
    Hover { text: String },
    /// Completion labels.
    Completion { items: Vec<String> },
    /// Where a definition lies.
    Definition { uri: String, range: LspRange },
    /// Progress of a server task.
    Progress {
        token: String,
        server_key: String,
        title: String,
        message: Option<String>,
        percentage: Option<u32>,
        done: bool,
    },
    /// A line the server wrote to its error output.
    Log { server_key: String, message: String },
}

/// An event, with its texts as character sequences.
pub enum EventModel {
    Hover(Seq<char>),
    Completion(Seq<Seq<char>>),
    Definition(Seq<char>, LspRange),
    Progress(Seq<char>, Seq<char>, Seq<char>, Option<Seq<char>>, Option<u32>, bool),
    Log(Seq<char>, Seq<char>),
}

/// An optional string as an optional character sequence.
pub open spec fn opt_str(s: Option<String>) -> Option<Seq<char>> {
    match s {
        Some(x) => Some(x@),
        None => None,
    }
}

/// An event as its model.
pub open spec fn event_view(e: LspEvent) -> EventModel {
    match e {
        LspEvent::Hover { text } => EventModel::Hover(text@),
        LspEvent::Completion { items } => EventModel::Completion(items@.map_values(|s: String| s@)),
        LspEvent::Definition { uri, range } => EventModel::Definition(uri@, range),
        LspEvent::Progress { token, server_key, title, message, percentage, done } => EventModel::Progress(
            token@,
            server_key@,
            title@,
            opt_str(message),
            percentage,
            done,
        ),
        LspEvent::Log { server_key, message } => EventModel::Log(server_key@, message@),
    }
}

/// What the client does with a message from the server.
#[derive(Clone, Debug)]
pub enum ServerAction {
    /// Nothing.
    Ignore,
    /// Answer the server's request `id` with an empty result (the server
    /// asked to create a progress token).
    Acknowledge(u64),
    /// Hand an event on to the application.
    Emit(LspEvent),
}

/// An action, with its texts as character sequences.
pub enum ActionModel {
    Ignore,
    Acknowledge(u64),
    Emit(EventModel),
}

/// An action as its model.
pub open spec fn action_view(a: ServerAction) -> ActionModel {
    match a {
        ServerAction::Ignore => ActionModel::Ignore,
        ServerAction::Acknowledge(id) => ActionModel::Acknowledge(id),
        ServerAction::Emit(e) => ActionModel::Emit(event_view(e)),
    }
}

/// The event a reply to a request of `kind` brings: hover text (empty when
/// there is none); completion labels, when there are some; a definition's
/// location, when there is one.
pub open spec fn reply_action(kind: LspRequestKind, result: JsonValue) -> ActionModel {
    match kind {
        LspRequestKind::Hover => ActionModel::Emit(
            EventModel::Hover(
                match hover_reply_text(result) {
                    Some(t) => t,
                    None => Seq::empty(),
                },
            ),
        ),
        LspRequestKind::Completion => {
            let l = labels(completion_items(result));
            if l.len() == 0 {
                ActionModel::Ignore
            } else {
                ActionModel::Emit(EventModel::Completion(l))
            }
        },
        LspRequestKind::Definition => match definition_of(result) {
            Some((u, r)) => ActionModel::Emit(EventModel::Definition(u, r)),
            None => ActionModel::Ignore,
        },
    }
}

/// A progress token: a string, or an integer written in decimal.
pub open spec fn token_of(t: Option<JsonValue>) -> Option<Seq<char>> {
    match str_of(t) {
        Some(s) => Some(s),
        None => match i64_of(t) {
            Some(i) => Some(crate::decimal::signed_decimal(i as int)),
            None => None,
        },
    }
}

/// The event a `$/progress` notification brings: its token, the server,
/// the title (empty when there is none), the message, the percentage cut
/// to 32 bits, and whether the task has ended.
pub open spec fn progress_action(params: JsonValue, key: Seq<char>) -> ActionModel {
    match (token_of(get(params, "token"@)), get(params, "value"@)) {
        (Some(tok), Some(val)) => {
            let kind = match str_of(get(val, "kind"@)) {
                Some(k) => k,
                None => Seq::empty(),
            };
            let title = match str_of(get(val, "title"@)) {
                Some(t) => t,
                None => Seq::empty(),
            };
            let pct = match u64_of(get(val, "percentage"@)) {
                Some(p) => Some(p as u32),
                None => None,
            };
            ActionModel::Emit(
                EventModel::Progress(tok, key, title, str_of(get(val, "message"@)), pct, kind == "end"@),
            )
        },
        _ => ActionModel::Ignore,
    }
}

/// The `result` member of a reply, or null.
pub open spec fn result_or_null(v: JsonValue) -> JsonValue {
    match get(v, "result"@) {
        Some(r) => r,
        None => JsonValue::Null,
    }
}

/// What the client does with message `v` from the server of `key`, given
/// the requests waiting for replies: a request to create a progress token
/// is acknowledged; a reply to a waiting request brings its event; a
/// `$/progress` notification brings a progress event; all else is ignored.
pub open spec fn server_action(v: JsonValue, pending: Map<u64, LspRequestKind>, key: Seq<char>) -> ActionModel {
    match u64_of(get(v, "id"@)) {
        Some(id) => match str_of(get(v, "method"@)) {
            Some(m) => if m == "window/workDoneProgress/create"@ {
                ActionModel::Acknowledge(id)
            } else {
                ActionModel::Ignore
            },
            None => if pending.contains_key(id) {
                reply_action(pending[id], result_or_null(v))
            } else {
                ActionModel::Ignore
            },
        },
        None => match str_of(get(v, "method"@)) {
            Some(m) => if m == "$/progress"@ {
                match get(v, "params"@) {
                    Some(p) => progress_action(p, key),
                    None => ActionModel::Ignore,
                }
            } else {
                ActionModel::Ignore
            },
            None => ActionModel::Ignore,
        },
    }
}

/// The waiting requests after message `v`: a reply takes its request off.
pub open spec fn pending_after(v: JsonValue, pending: Map<u64, LspRequestKind>) -> Map<u64, LspRequestKind> {
    match u64_of(get(v, "id"@)) {
        Some(id) => if str_of(get(v, "method"@)) is None {
            pending.remove(id)
        } else {
            pending
        },
        None => pending,
    }
}

fn reply_event(kind: LspRequestKind, result: &JsonValue) -> (res: ServerAction)
    ensures
        action_view(res) == reply_action(kind, *result),
{
    match kind {
        LspRequestKind::Hover => {
            let text = match parse_hover_text(result) {
                Some(t) => t,
                None => String::new(),
            };
            ServerAction::Emit(LspEvent::Hover { text })
        },
        LspRequestKind::Completion => {
            let items = parse_completion_items(result);
            if items.len() == 0 {
                ServerAction::Ignore
            } else {
                ServerAction::Emit(LspEvent::Completion { items })
            }
        },
        LspRequestKind::Definition => match parse_definition_location(result) {
            Some((uri, range)) => ServerAction::Emit(LspEvent::Definition { uri, range }),
            None => ServerAction::Ignore,
        },
    }
}

fn progress_event(params: &JsonValue, server_key: &str) -> (res: ServerAction)
    ensures
        action_view(res) == progress_action(*params, server_key@),
{
    let t = json_get(params, "token");
    let token: Option<String> = match json_str(t) {
        Some(s) => Some(s.clone()),
        None => match t {
            Some(JsonValue::Number(_, Some(i))) => {
                let cs = crate::decimal::signed_decimal_chars(*i);
                Some(string_from_chars(cs.as_slice()))
            },
            _ => None,
        },
    };
    match (token, json_get(params, "value")) {
        (Some(token), Some(val)) => {
            let kind = json_str(json_get(val, "kind"));
            let done = match kind {
                Some(k) => str_eq(k.as_str(), "end"),
                None => {
                    proof {
                        reveal_strlit("end");
                    }
                    false
                },
            };
            let title = match json_str(json_get(val, "title")) {
                Some(x) => x.clone(),
                None => String::new(),
            };
            let message = match json_str(json_get(val, "message")) {
                Some(x) => Some(x.clone()),
                None => None,
            };
            let percentage = match json_u64(json_get(val, "percentage")) {
                Some(p) => Some(p as u32),
                None => None,
            };
            ServerAction::Emit(
                LspEvent::Progress {
                    token,
                    server_key: server_key.to_owned(),
                    title,
                    message,
                    percentage,
                    done,
                },
            )
        },
        _ => ServerAction::Ignore,
    }
}

/// Decides what to do with message `value` from the server of
/// `server_key`, taking a reply's request off the waiting list.
pub fn handle_server_message(value: &JsonValue, tracker: &mut RequestTracker, server_key: &str) -> (res: ServerAction)
    ensures
        action_view(res) == server_action(*value, old(tracker)@.1, server_key@),
        final(tracker)@ == (old(tracker)@.0, pending_after(*value, old(tracker)@.1)),
{
    let id = json_u64(json_get(value, "id"));
    let method = json_str(json_get(value, "method"));
    match id {
        Some(id) => match method {
            Some(m) => {
                if str_eq(m.as_str(), "window/workDoneProgress/create") {
                    ServerAction::Acknowledge(id)
                } else {
                    ServerAction::Ignore
                }
            },
            None => {
                let kind = tracker.finish(id);
                match kind {
                    Some(k) => {
                        let null = JsonValue::Null;
                        let result = match json_get(value, "result") {
                            Some(r) => r,
                            None => &null,
                        };
                        reply_event(k, result)
                    },
                    None => ServerAction::Ignore,
                }
            },
        },
        None => match method {
            Some(m) => {
                if str_eq(m.as_str(), "$/progress") {
                    match json_get(value, "params") {
                        Some(p) => progress_event(p, server_key),
                        None => ServerAction::Ignore,
                    }
                } else {
                    ServerAction::Ignore
                }
            },
            None => ServerAction::Ignore,
        },
    }
}

/// The event a line of the server's error output brings: the line without
/// surrounding whitespace, unless nothing is left of it.
pub fn stderr_line_event(server_key: &str, line: &str) -> (res: Option<LspEvent>)
    ensures
        match res {
            Some(e) => trimmed(line@).len() > 0 && event_view(e) == EventModel::Log(server_key@, trimmed(line@)),
            None => trimmed(line@).len() == 0,
        },
{
    let t = trim(line);
    if t.as_str().is_empty() {
        None
    } else {
        Some(LspEvent::Log { server_key: server_key.to_owned(), message: t })
    }
}


/// Reading back the header of a framed message: its first line gives the
/// body's length, whatever length was known before, and the blank line
/// after it ends the headers; the frame is exactly these two lines followed
/// by the body.
pub proof fn lemma_frame_read_back(body: Seq<u8>, known: Option<usize>)
    requires
        body.len() <= usize::MAX,
    ensures
        header_step("Content-Length: "@ + decimal(body.len()) + "\r\n"@, known) == HeaderLine::Header(
            Some(body.len() as usize),
        ),
        header_step("\r\n"@, Some(body.len() as usize)) == HeaderLine::End,
        framed(body) == ascii_bytes("Content-Length: "@ + decimal(body.len()) + "\r\n"@ + "\r\n"@) + body,
{
    reveal_strlit("Content-Length: ");
    reveal_strlit("Content-Length:");
    reveal_strlit("\r\n");
    reveal_strlit("\r\n\r\n");
    let n = body.len();
    let d = decimal(n);
    lemma_decimal_value(n);
    lemma_parse_decimal(n);
    let head = "Content-Length: "@ + d;
    let crlf = "\r\n"@;
    assert(head[0] == 'C');
    assert(head.last() == d.last());
    assert(0x30 <= (d.last() as int) <= 0x39);
    assert(Seq::<char>::empty() + head + crlf =~= head + crlf);
    lemma_trimmed_between(Seq::empty(), head, crlf);
    let k = content_length_key();
    assert(head.take(k.len() as int) =~= k);
    let rest = head.skip(k.len() as int);
    assert(rest =~= seq![' '] + d + Seq::<char>::empty());
    assert(0x30 <= (d[0] as int) <= 0x39);
    lemma_trimmed_between(seq![' '], d, Seq::empty());
    lemma_trimmed_blank(crlf);
    assert(crlf + crlf =~= "\r\n\r\n"@);
    assert(head + crlf + crlf =~= head + "\r\n\r\n"@);
}

} // verus!
