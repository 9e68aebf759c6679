//! The demo application's bookkeeping around the editors: document URIs for
//! the language servers, completion, server progress, and definition jumps.

use vstd::prelude::*;

use crate::chars::{chars_of, string_from_chars};
use crate::decimal::{decimal, decimal_chars};
use crate::editor::{model_ok, next_state, CodeEditor, EditorModel, Message};
use crate::laws::typed;
use crate::lines::valid_pos;
use crate::textutil::{all_ascii, alphanumeric, ascii_alphanumeric, ascii_lower, is_alphanumeric, lowercase, to_lowercase};
use crate::protocol::{event_view, opt_str, EventModel, LspEvent};
use crate::types::{template_name, EditorId, LspProgress, Template};

use crate::paths::{lemma_parent_like, parent_of, parts_prefix, path_like, path_parent, path_starts_with, slash_path};

verus! {

/// `editor_<n>`: the label of an editor in the URIs of its documents.
pub open spec fn id_label(id: EditorId) -> Seq<char> {
    "editor_"@ + decimal(id.0 as nat)
}

/// The label of an editor in the URIs of its documents.
pub fn editor_id_label(editor_id: EditorId) -> (res: String)
    ensures
        res@ == id_label(editor_id),
{
    let mut v = chars_of("editor_");
    let mut d = decimal_chars(editor_id.0);
    v.append(&mut d);
    string_from_chars(v.as_slice())
}

/// `s` with every `from` replaced by `to`.
pub open spec fn replace_char(s: Seq<char>, from: char, to: Seq<char>) -> Seq<char>
    decreases s.len(),
{
    if s.len() == 0 {
        Seq::empty()
    } else {
        replace_char(s.drop_last(), from, to) + if s.last() == from {
            to
        } else {
            seq![s.last()]
        }
    }
}

fn replace_char_exec(s: &Vec<char>, from: char, to: &Vec<char>) -> (res: Vec<char>)
    ensures
        res@ == replace_char(s@, from, to@),
{
    let mut out: Vec<char> = Vec::new();
    let mut i: usize = 0;
    proof {
        assert(s@.take(0) =~= Seq::<char>::empty());
    }
    while i < s.len()
        invariant
            i <= s@.len(),
            out@ == replace_char(s@.take(i as int), from, to@),
        decreases s@.len() - i,
    {
        proof {
            assert(s@.take(i + 1).drop_last() =~= s@.take(i as int));
            assert(s@.take(i + 1).last() == s@[i as int]);
        }
        if s[i] == from {
            let mut j: usize = 0;
            let ghost base = out@;
            while j < to.len()
                invariant
                    j <= to@.len(),
                    out@ == base + to@.take(j as int),
                decreases to@.len() - j,
            {
                out.push(to[j]);
                proof {
                    assert(to@.take(j + 1) =~= to@.take(j as int).push(to@[j as int]));
                }
                j = j + 1;
            }
            proof {
                assert(to@.take(to@.len() as int) =~= to@);
            }
        } else {
            out.push(s[i]);
            proof {
                assert(out@ =~= replace_char(s@.take(i as int), from, to@) + seq![s@[i as int]]);
            }
        }
        i = i + 1;
    }
    proof {
        assert(s@.take(s@.len() as int) =~= s@);
    }
    out
}

/// The file name a template's virtual document gets: its name lower-cased
/// with spaces made underscores, or `untitled` when that is empty.
pub open spec fn template_file_name(t: Template) -> Seq<char> {
    let n = replace_char(lowercase(template_name(t)), ' ', seq!['_']);
    if n.len() == 0 {
        "untitled"@
    } else {
        n
    }
}

/// `untitled://editor_<n>/<name>.lua`: the URI of a template's document,
/// which is on no disk.
pub open spec fn template_uri(id: EditorId, t: Template) -> Seq<char> {
    "untitled://"@ + id_label(id) + "/"@ + template_file_name(t) + ".lua"@
}

/// The URI of the virtual document of a template in an editor.
pub fn virtual_uri_for_template(editor_id: EditorId, template: Template) -> (res: String)
    ensures
        res@ == template_uri(editor_id, template),
{
    let lower = to_lowercase(template.name());
    let lc = chars_of(lower.as_str());
    let mut under: Vec<char> = Vec::new();
    under.push('_');
    proof {
        assert(under@ =~= seq!['_']);
    }
    let mut name = replace_char_exec(&lc, ' ', &under);
    if name.len() == 0 {
        name = chars_of("untitled");
    }
    let mut v = chars_of("untitled://");
    let mut label = chars_of(editor_id_label(editor_id).as_str());
    v.append(&mut label);
    let mut slash = chars_of("/");
    v.append(&mut slash);
    v.append(&mut name);
    let mut ext = chars_of(".lua");
    v.append(&mut ext);
    string_from_chars(v.as_slice())
}

/// `file://` followed by the path with every space written `%20`.
pub open spec fn file_uri(path: Seq<char>) -> Seq<char> {
    "file://"@ + replace_char(path, ' ', "%20"@)
}

/// The `file://` URI of a path.
pub fn path_to_file_uri(path: &str) -> (res: String)
    ensures
        res@ == file_uri(path@),
{
    let pc = chars_of(path);
    let enc = chars_of("%20");
    let mut body = replace_char_exec(&pc, ' ', &enc);
    let mut v = chars_of("file://");
    v.append(&mut body);
    string_from_chars(v.as_slice())
}

/// The path a `file://` URI names, if it is one.
pub open spec fn uri_file_path(uri: Seq<char>) -> Option<Seq<char>> {
    let p = "file://"@;
    if uri.len() >= p.len() && uri.take(p.len() as int) == p {
        Some(uri.skip(p.len() as int))
    } else {
        None
    }
}

/// The path a `file://` URI names; other URIs name none.
pub fn file_path_of_uri(uri: &str) -> (res: Option<String>)
    ensures
        match res {
            Some(p) => uri_file_path(uri@) == Some(p@),
            None => uri_file_path(uri@) is None,
        },
{
    let u = chars_of(uri);
    let p = chars_of("file://");
    if u.len() < p.len() {
        return None;
    }
    let mut i: usize = 0;
    while i < p.len()
        invariant
            i <= p@.len() <= u@.len(),
            u@ == uri@,
            p@ == "file://"@,
            forall|j: int| 0 <= j < i ==> u@[j] == p@[j],
        decreases p@.len() - i,
    {
        if u[i] != p[i] {
            proof {
                assert(u@.take(p@.len() as int)[i as int] != p@[i as int]);
                assert(uri_file_path(uri@) is None);
            }
            return None;
        }
        i = i + 1;
    }
    proof {
        assert(u@.take(p@.len() as int) =~= p@);
    }
    let mut rest: Vec<char> = Vec::new();
    let mut k = p.len();
    while k < u.len()
        invariant
            p@.len() <= k <= u@.len(),
            rest@ == u@.subrange(p@.len() as int, k as int),
        decreases u@.len() - k,
    {
        rest.push(u[k]);
        proof {
            assert(u@.subrange(p@.len() as int, k + 1) =~= u@.subrange(p@.len() as int, k as int).push(u@[k as int]));
        }
        k = k + 1;
    }
    proof {
        assert(rest@ =~= u@.skip(p@.len() as int));
    }
    Some(string_from_chars(rest.as_slice()))
}

/// A character that continues a word: alphanumeric or `_`.  Among ASCII
/// characters those are the letters, the digits and `_`.
pub open spec fn word_char(c: char) -> bool {
    if (c as u32) < 128 {
        ascii_alphanumeric(c) || c == '_'
    } else {
        alphanumeric(c)
    }
}

/// Whether `c` continues a word: alphanumeric or `_`.
pub fn is_word_char(c: char) -> (res: bool)
    ensures
        res == word_char(c),
{
    is_alphanumeric(c) || c == '_'
}

/// Where the word ending at column `col` of `line` starts: walking back
/// over word characters; a column past the end of the line counts as a space.
pub open spec fn word_start(line: Seq<char>, col: int) -> int
    decreases col,
{
    if col <= 0 {
        col
    } else {
        let ch = if col - 1 < line.len() {
            line[col - 1]
        } else {
            ' '
        };
        if !word_char(ch) {
            col
        } else {
            word_start(line, col - 1)
        }
    }
}

/// The column where the word being typed before `cursor_col` starts.
pub fn find_word_start(line: &str, cursor_col: usize) -> (res: usize)
    ensures
        res == word_start(line@, cursor_col as int),
        res <= cursor_col,
{
    let chars = chars_of(line);
    let mut ws = cursor_col;
    while ws > 0
        invariant_except_break
            ws <= cursor_col,
            chars@ == line@,
            word_start(line@, ws as int) == word_start(line@, cursor_col as int),
        ensures
            ws <= cursor_col,
            word_start(line@, ws as int) == word_start(line@, cursor_col as int),
            word_start(line@, ws as int) == ws as int,
        decreases ws,
    {
        let ch = if ws - 1 < chars.len() {
            chars[ws - 1]
        } else {
            ' '
        };
        if !is_word_char(ch) {
            proof {
                assert(!word_char(ch));
                assert(word_start(line@, ws as int) == ws as int);
            }
            break;
        }
        ws = ws - 1;
    }
    ws
}

/// The editor after `n` backspaces.
pub open spec fn backspaced_times(m: EditorModel, n: nat) -> EditorModel
    decreases n,
{
    if n == 0 {
        m
    } else {
        next_state(backspaced_times(m, (n - 1) as nat), Message::Backspace)
    }
}

/// The word being typed before the cursor, replaced by `completion` typed
/// in: as many backspaces as the word is long, then the completion's
/// characters one by one.
pub open spec fn completion_applied(m: EditorModel, completion: Seq<char>) -> EditorModel {
    let col = m.cursor.1;
    let n = col - word_start(m.lines[m.cursor.0], col);
    typed(backspaced_times(m, n as nat), completion)
}

/// Replaces the word being typed before the cursor by `completion_text`.
pub fn apply_completion(editor: &mut CodeEditor, completion_text: &str)
    requires
        old(editor).wf(),
    ensures
        final(editor).wf(),
        final(editor)@ == completion_applied(old(editor)@, completion_text@),
{
    proof {
        editor.lemma_model_ok();
    }
    let (line, col) = editor.cursor_position();
    let content = editor.line(line);
    let word = find_word_start(content.as_str(), col);
    let count = col - word;
    let ghost m0 = editor@;
    let mut k: usize = 0;
    while k < count
        invariant
            k <= count,
            editor.wf(),
            editor@ == backspaced_times(m0, k as nat),
        decreases count - k,
    {
        let _ = editor.update(&Message::Backspace);
        k = k + 1;
    }
    let ghost mb = editor@;
    let cs = chars_of(completion_text);
    let mut i: usize = 0;
    proof {
        assert(cs@.take(0) =~= Seq::<char>::empty());
    }
    while i < cs.len()
        invariant
            i <= cs@.len(),
            editor.wf(),
            editor@ == typed(mb, cs@.take(i as int)),
        decreases cs@.len() - i,
    {
        let _ = editor.update(&Message::CharacterInput(cs[i]));
        proof {
            assert(cs@.take(i + 1).drop_last() =~= cs@.take(i as int));
            assert(cs@.take(i + 1).last() == cs@[i as int]);
        }
        i = i + 1;
    }
    proof {
        assert(cs@.take(cs@.len() as int) =~= cs@);
    }
}

/// A progress report as its texts and percentage.
pub open spec fn progress_view(p: LspProgress) -> (Seq<char>, Option<Seq<char>>, Option<u32>) {
    (p.title@, match p.message {
        Some(m) => Some(m@),
        None => None,
    }, p.percentage)
}

/// The server and token an entry is kept under.
pub open spec fn entry_key(e: (String, String, LspProgress)) -> (Seq<char>, Seq<char>) {
    (e.0@, e.1@)
}

/// The reports of the entries, keyed by server and token.
pub open spec fn table_map(e: Seq<(String, String, LspProgress)>) -> Map<(Seq<char>, Seq<char>), (Seq<char>, Option<Seq<char>>, Option<u32>)>
    decreases e.len(),
{
    if e.len() == 0 {
        Map::empty()
    } else {
        table_map(e.drop_last()).insert(entry_key(e.last()), progress_view(e.last().2))
    }
}

/// No two entries are kept under the same server and token.
pub open spec fn keys_unique(e: Seq<(String, String, LspProgress)>) -> bool {
    forall|a: int, b: int| 0 <= a < b < e.len() ==> entry_key(#[trigger] e[a]) != entry_key(#[trigger] e[b])
}

proof fn lemma_table_dom(e: Seq<(String, String, LspProgress)>, k: (Seq<char>, Seq<char>))
    ensures
        table_map(e).contains_key(k) <==> exists|i: int| 0 <= i < e.len() && entry_key(#[trigger] e[i]) == k,
    decreases e.len(),
{
    if e.len() > 0 {
        let p = e.drop_last();
        lemma_table_dom(p, k);
        if exists|i: int| 0 <= i < e.len() && entry_key(#[trigger] e[i]) == k {
            let i = choose|i: int| 0 <= i < e.len() && entry_key(#[trigger] e[i]) == k;
            if i < p.len() {
                assert(p[i] == e[i]);
            }
        }
        if exists|i: int| 0 <= i < p.len() && entry_key(#[trigger] p[i]) == k {
            let i = choose|i: int| 0 <= i < p.len() && entry_key(#[trigger] p[i]) == k;
            assert(e[i] == p[i]);
        }
    }
}

proof fn lemma_table_remove(e: Seq<(String, String, LspProgress)>, i: int)
    requires
        keys_unique(e),
        0 <= i < e.len(),
    ensures
        table_map(e.remove(i)) == table_map(e).remove(entry_key(e[i])),
    decreases e.len(),
{
    let k = entry_key(e[i]);
    let p = e.drop_last();
    if i == e.len() - 1 {
        assert(e.remove(i) =~= p);
        lemma_table_dom(p, k);
        assert forall|j: int| 0 <= j < p.len() implies entry_key(#[trigger] p[j]) != k by {
            assert(p[j] == e[j]);
        }
        assert(table_map(p) =~= table_map(e).remove(k));
    } else {
        assert forall|a: int, b: int| 0 <= a < b < p.len() implies entry_key(#[trigger] p[a]) != entry_key(#[trigger] p[b]) by {
            assert(p[a] == e[a]);
            assert(p[b] == e[b]);
        }
        assert(p[i] == e[i]);
        lemma_table_remove(p, i);
        let r = e.remove(i);
        assert(r.drop_last() =~= p.remove(i));
        assert(r.last() == e.last());
        assert(entry_key(e.last()) != k);
        assert(table_map(r) =~= table_map(e).remove(k));
    }
}

proof fn lemma_table_set(e: Seq<(String, String, LspProgress)>, i: int, x: (String, String, LspProgress))
    requires
        keys_unique(e),
        0 <= i < e.len(),
        entry_key(x) == entry_key(e[i]),
    ensures
        table_map(e.update(i, x)) == table_map(e).insert(entry_key(x), progress_view(x.2)),
    decreases e.len(),
{
    let k = entry_key(x);
    let p = e.drop_last();
    let u = e.update(i, x);
    if i == e.len() - 1 {
        assert(u.drop_last() =~= p);
        lemma_table_dom(p, k);
        assert forall|j: int| 0 <= j < p.len() implies entry_key(#[trigger] p[j]) != k by {
            assert(p[j] == e[j]);
        }
        assert(table_map(u) =~= table_map(e).insert(k, progress_view(x.2)));
    } else {
        assert forall|a: int, b: int| 0 <= a < b < p.len() implies entry_key(#[trigger] p[a]) != entry_key(#[trigger] p[b]) by {
            assert(p[a] == e[a]);
            assert(p[b] == e[b]);
        }
        assert(p[i] == e[i]);
        lemma_table_set(p, i, x);
        assert(u.drop_last() =~= p.update(i, x));
        assert(u.last() == e.last());
        assert(entry_key(e.last()) != k);
        assert(table_map(u) =~= table_map(e).insert(k, progress_view(x.2)));
    }
}

/// The progress reports that are going on, keyed by server and token.
pub struct ProgressTable {
    entries: Vec<(String, String, LspProgress)>,
}

impl ProgressTable {
    /// No two entries share a server and a token.
    pub closed spec fn wf(&self) -> bool {
        keys_unique(self.entries@)
    }

    /// The reports, keyed by server and token.
    pub closed spec fn view(&self) -> Map<(Seq<char>, Seq<char>), (Seq<char>, Option<Seq<char>>, Option<u32>)> {
        table_map(self.entries@)
    }

    /// An empty table.
    pub fn new() -> (res: Self)
        ensures
            res.wf(),
            res.view() == Map::<(Seq<char>, Seq<char>), (Seq<char>, Option<Seq<char>>, Option<u32>)>::empty(),
    {
        ProgressTable { entries: Vec::new() }
    }

    /// Where the entry of `(server, token)` is, if there is one.
    fn find(&self, server: &str, token: &str) -> (res: Option<usize>)
        ensures
            match res {
                Some(i) => i < self.entries@.len() && entry_key(self.entries@[i as int]) == (server@, token@),
                None => forall|i: int| 0 <= i < self.entries@.len() ==> entry_key(#[trigger] self.entries@[i]) != (server@, token@),
            },
    {
        let mut i: usize = 0;
        while i < self.entries.len()
            invariant
                i <= self.entries@.len(),
                forall|j: int| 0 <= j < i ==> entry_key(#[trigger] self.entries@[j]) != (server@, token@),
            decreases self.entries@.len() - i,
        {
            if crate::textutil::str_eq(self.entries[i].0.as_str(), server) && crate::textutil::str_eq(self.entries[i].1.as_str(), token) {
                return Some(i);
            }
            i = i + 1;
        }
        None
    }

    /// Records a report: a finished task's report is removed, any other is
    /// stored under its server and token, replacing an earlier one.
    pub fn update(&mut self, server: &str, token: &str, progress: LspProgress, done: bool)
        requires
            old(self).wf(),
        ensures
            final(self).wf(),
            done ==> final(self).view() == old(self).view().remove((server@, token@)),
            !done ==> final(self).view() == old(self).view().insert((server@, token@), progress_view(progress)),
    {
        let ghost old_e = self.entries@;
        match self.find(server, token) {
            Some(i) => {
                if done {
                    self.entries.remove(i);
                    proof {
                        lemma_table_remove(old_e, i as int);
                        assert forall|a: int, b: int| 0 <= a < b < self.entries@.len() implies entry_key(#[trigger] self.entries@[a]) != entry_key(#[trigger] self.entries@[b]) by {
                            let oa = if a < i { a } else { a + 1 };
                            let ob = if b < i { b } else { b + 1 };
                            assert(self.entries@[a] == old_e[oa]);
                            assert(self.entries@[b] == old_e[ob]);
                        }
                    }
                } else {
                    let x = (server.to_owned(), token.to_owned(), progress);
                    self.entries.set(i, x);
                    proof {
                        lemma_table_set(old_e, i as int, x);
                        assert forall|a: int, b: int| 0 <= a < b < self.entries@.len() implies entry_key(#[trigger] self.entries@[a]) != entry_key(#[trigger] self.entries@[b]) by {
                            if a != i as int {
                                assert(self.entries@[a] == old_e[a]);
                            }
                            if b != i as int {
                                assert(self.entries@[b] == old_e[b]);
                            }
                        }
                    }
                }
            },
            None => {
                proof {
                    lemma_table_dom(old_e, (server@, token@));
                }
                if !done {
                    let x = (server.to_owned(), token.to_owned(), progress);
                    self.entries.push(x);
                    proof {
                        assert(self.entries@.drop_last() =~= old_e);
                        assert forall|a: int, b: int| 0 <= a < b < self.entries@.len() implies entry_key(#[trigger] self.entries@[a]) != entry_key(#[trigger] self.entries@[b]) by {
                            assert(self.entries@[a] == old_e[a]);
                            if b < old_e.len() {
                                assert(self.entries@[b] == old_e[b]);
                            }
                        }
                    }
                } else {
                    proof {
                        assert(table_map(old_e) =~= table_map(old_e).remove((server@, token@)));
                    }
                }
            },
        }
    }

    /// The reports, as server, token and report, in the order they came.
    pub fn entries(&self) -> (res: &Vec<(String, String, LspProgress)>)
        ensures
            table_map(res@) == self.view(),
    {
        &self.entries
    }
}

/// `[<server>] <message>`: a server's log line as the application logs it.
pub open spec fn log_line(server: Seq<char>, message: Seq<char>) -> Seq<char> {
    "["@ + server + "] "@ + message
}

/// A server's log line as the application logs it.
pub fn format_log_line(server: &str, message: &str) -> (res: String)
    ensures
        res@ == log_line(server@, message@),
{
    let mut v = chars_of("[");
    let mut s = chars_of(server);
    v.append(&mut s);
    let mut mid = chars_of("] ");
    v.append(&mut mid);
    let mut m = chars_of(message);
    v.append(&mut m);
    string_from_chars(v.as_slice())
}


/// The completion entry below `selected` in a menu of `len` entries,
/// wrapping round to the first; with no entries, `selected` stays.
pub fn completion_down(selected: usize, len: usize) -> (res: usize)
    ensures
        len > 0 ==> res == (selected + 1) % (len as int),
        len == 0 ==> res == selected,
{
    if len == 0 {
        selected
    } else {
        let r = selected % len;
        proof {
            vstd::arithmetic::div_mod::lemma_add_mod_noop_right(1, selected as int, len as int);
        }
        if r + 1 == len {
            proof {
                vstd::arithmetic::div_mod::lemma_mod_self_0(len as int);
            }
            0
        } else {
            proof {
                vstd::arithmetic::div_mod::lemma_small_mod((r + 1) as nat, len as nat);
            }
            r + 1
        }
    }
}

/// The completion entry above `selected` in a menu of `len` entries,
/// wrapping round to the last; with no entries, `selected` stays.
pub fn completion_up(selected: usize, len: usize) -> (res: usize)
    ensures
        len > 0 ==> res == if selected > 0 {
            selected - 1
        } else {
            len - 1
        },
        len == 0 ==> res == selected,
{
    if len == 0 {
        selected
    } else if selected > 0 {
        selected - 1
    } else {
        len - 1
    }
}


/// `untitled://editor_<n>/untitled.<syntax>`: the URI of an untitled
/// document highlighted as `syntax`.
pub open spec fn syntax_uri(id: EditorId, syntax: Seq<char>) -> Seq<char> {
    "untitled://"@ + id_label(id) + "/untitled."@ + syntax
}

/// The URI of an untitled document highlighted as `syntax` in an editor.
pub fn virtual_uri_for_syntax(editor_id: EditorId, syntax: &str) -> (res: String)
    ensures
        res@ == syntax_uri(editor_id, syntax@),
{
    let mut v = chars_of("untitled://");
    let mut label = chars_of(editor_id_label(editor_id).as_str());
    v.append(&mut label);
    let mut mid = chars_of("/untitled.");
    v.append(&mut mid);
    let mut s = chars_of(syntax);
    v.append(&mut s);
    string_from_chars(v.as_slice())
}

/// The working directory, when known, is path-like.
pub open spec fn cwd_like(cwd: Option<&str>) -> bool {
    cwd matches Some(c) ==> path_like(c@)
}

/// The root chosen for the directory `d`: the working directory when `d`
/// lies inside it, else `d` itself.
pub open spec fn root_choice(d: Seq<char>, cwd: Option<Seq<char>>) -> Seq<char> {
    match cwd {
        Some(c) => if parts_prefix(d, c) {
            c
        } else {
            d
        },
        None => d,
    }
}

/// An optional string slice as an optional character sequence.
pub open spec fn opt_chars(s: Option<&str>) -> Option<Seq<char>> {
    match s {
        Some(x) => Some(x@),
        None => None,
    }
}

/// The `file://` URI of the directory a language server's workspace is
/// rooted at: the directory of the document `hint` (the hint itself when
/// `hint_is_dir`), replaced by the working directory `cwd` when it lies
/// inside it; with no hint, or no directory above it, the working
/// directory.  No URI when neither is known.
pub fn lsp_root_uri_for_path(hint: Option<&str>, hint_is_dir: bool, cwd: Option<&str>) -> (res: Option<String>)
    ensures
        hint is None ==> match res {
            Some(u) => cwd matches Some(c) && u@ == file_uri(c@),
            None => cwd is None,
        },
        (hint is Some && hint_is_dir) ==> (res matches Some(u) && (u@ == file_uri(hint->0@) || (cwd matches Some(
            c,
        ) && u@ == file_uri(c@)))),
        res is None ==> cwd is None,
        (cwd is None && hint is Some && hint_is_dir) ==> (res matches Some(u) && u@ == file_uri(hint->0@)),
        match hint {
            Some(h) => cwd_like(cwd) && (if hint_is_dir {
                path_like(h@)
            } else {
                slash_path(h@)
            }) ==> match res {
                Some(u) => u@ == file_uri(
                    root_choice(
                        if hint_is_dir {
                            h@
                        } else {
                            parent_of(h@)
                        },
                        opt_chars(cwd),
                    ),
                ),
                None => false,
            },
            None => true,
        },
        match hint {
            Some(h) => !hint_is_dir && (h@ == Seq::<char>::empty() || h@ == "/"@) ==> match res {
                Some(u) => cwd matches Some(c) && u@ == file_uri(c@),
                None => cwd is None,
            },
            None => true,
        },
{
    let dir: Option<String> = match hint {
        Some(h) => if hint_is_dir {
            Some(h.to_owned())
        } else {
            proof {
                if slash_path(h@) {
                    lemma_parent_like(h@);
                }
            }
            path_parent(h)
        },
        None => None,
    };
    let root: Option<String> = match dir {
        Some(d) => match cwd {
            Some(c) => if path_starts_with(d.as_str(), c) {
                Some(c.to_owned())
            } else {
                Some(d)
            },
            None => Some(d),
        },
        None => match cwd {
            Some(c) => Some(c.to_owned()),
            None => None,
        },
    };
    match root {
        Some(r) => Some(path_to_file_uri(r.as_str())),
        None => None,
    }
}


/// `s` begins with `p`.
pub open spec fn has_prefix(s: Seq<char>, p: Seq<char>) -> bool {
    p.len() <= s.len() && s.take(p.len() as int) == p
}

/// The completion labels that begin with the word typed so far, compared
/// in lower case, in order.
pub open spec fn matching_labels(items: Seq<Seq<char>>, word: Seq<char>) -> Seq<Seq<char>>
    decreases items.len(),
{
    if items.len() == 0 {
        Seq::empty()
    } else {
        let prev = matching_labels(items.drop_last(), word);
        if has_prefix(lowercase(items.last()), lowercase(word)) {
            prev.push(items.last())
        } else {
            prev
        }
    }
}

fn starts_with_chars(s: &Vec<char>, p: &Vec<char>) -> (res: bool)
    ensures
        res == has_prefix(s@, p@),
{
    if p.len() > s.len() {
        return false;
    }
    let mut i: usize = 0;
    while i < p.len()
        invariant
            i <= p@.len() <= s@.len(),
            forall|j: int| 0 <= j < i ==> s@[j] == p@[j],
        decreases p@.len() - i,
    {
        if s[i] != p[i] {
            proof {
                assert(s@.take(p@.len() as int)[i as int] != p@[i as int]);
            }
            return false;
        }
        i = i + 1;
    }
    proof {
        assert(s@.take(p@.len() as int) =~= p@);
    }
    true
}

/// The completion labels that begin with `word`, compared in lower case.
pub fn filter_completions(items: &Vec<String>, word: &str) -> (res: Vec<String>)
    ensures
        res@.map_values(|s: String| s@) == matching_labels(items@.map_values(|s: String| s@), word@),
{
    let ghost iv = items@.map_values(|s: String| s@);
    let w = to_lowercase(word);
    let wc = chars_of(w.as_str());
    let mut out: Vec<String> = Vec::new();
    let mut i: usize = 0;
    proof {
        assert(iv.take(0) =~= Seq::<Seq<char>>::empty());
        assert(out@.map_values(|s: String| s@) =~= Seq::<Seq<char>>::empty());
    }
    while i < items.len()
        invariant
            i <= items@.len(),
            iv == items@.map_values(|s: String| s@),
            wc@ == lowercase(word@),
            out@.map_values(|s: String| s@) == matching_labels(iv.take(i as int), word@),
        decreases items@.len() - i,
    {
        let ghost prev = out@.map_values(|s: String| s@);
        proof {
            assert(iv.take(i + 1).drop_last() =~= iv.take(i as int));
            assert(iv.take(i + 1).last() == items@[i as int]@);
        }
        let lc = to_lowercase(items[i].as_str());
        let lcc = chars_of(lc.as_str());
        if starts_with_chars(&lcc, &wc) {
            out.push(items[i].clone());
            proof {
                assert(out@.map_values(|s: String| s@) =~= prev.push(items@[i as int]@));
            }
        }
        i = i + 1;
    }
    proof {
        assert(iv.take(items@.len() as int) =~= iv);
    }
    out
}


/// What a language server is doing, as its status line shows.
#[derive(Clone, Copy, PartialEq, Eq, Debug)]
pub enum ServerStatus {
    /// No task is reported.
    Idle,
    /// A task is going on.
    Working,
    /// A task reported all its work done.
    Finishing,
}

/// The status line of server `key` given one of its reports, if it has any:
/// `LSP: <key>`, with `(Finishing...)` once the report reaches 100%, or
/// the report's title, message and percentage in brackets.
pub open spec fn status_of(
    key: Seq<char>,
    report: Option<(Seq<char>, Option<Seq<char>>, Option<u32>)>,
) -> (Seq<char>, ServerStatus) {
    match report {
        None => ("LSP: "@ + key, ServerStatus::Idle),
        Some((title, message, pct)) => {
            let p = match pct {
                Some(x) => x as int,
                None => 0,
            };
            if p >= 100 {
                ("LSP: "@ + key + " (Finishing...)"@, ServerStatus::Finishing)
            } else {
                let m = match message {
                    Some(t) => ": "@ + t,
                    None => Seq::empty(),
                };
                let c = match pct {
                    Some(x) => " "@ + decimal(x as nat) + "%"@,
                    None => Seq::empty(),
                };
                ("LSP: "@ + key + " ("@ + title + m + c + ")"@, ServerStatus::Working)
            }
        },
    }
}

proof fn lemma_table_value(e: Seq<(String, String, LspProgress)>, i: int)
    requires
        keys_unique(e),
        0 <= i < e.len(),
    ensures
        table_map(e).contains_key(entry_key(e[i])),
        table_map(e)[entry_key(e[i])] == progress_view(e[i].2),
    decreases e.len(),
{
    if i < e.len() - 1 {
        let p = e.drop_last();
        assert(keys_unique(p)) by {
            assert forall|a: int, b: int| 0 <= a < b < p.len() implies entry_key(#[trigger] p[a]) != entry_key(
                #[trigger] p[b],
            ) by {
                assert(p[a] == e[a] && p[b] == e[b]);
            }
        }
        assert(p[i] == e[i]);
        lemma_table_value(p, i);
        assert(entry_key(e.last()) != entry_key(e[i]));
    }
}

impl ProgressTable {
    /// The status line of server `key`, from one of its reports when it has
    /// some.
    pub fn status(&self, key: &str) -> (res: (String, ServerStatus))
        requires
            self.wf(),
        ensures
            (forall|t: Seq<char>| !self.view().contains_key((key@, t))) ==> (res.0@, res.1) == status_of(key@, None),
            (exists|t: Seq<char>| self.view().contains_key((key@, t))) ==> exists|t: Seq<char>|
                self.view().contains_key((key@, t)) && (res.0@, res.1) == status_of(key@, Some(self.view()[(key@, t)])),
    {
        let mut i: usize = 0;
        while i < self.entries.len()
            invariant
                i <= self.entries@.len(),
                keys_unique(self.entries@),
                forall|j: int| 0 <= j < i ==> self.entries@[j].0@ != key@,
            decreases self.entries@.len() - i,
        {
            if crate::textutil::str_eq(self.entries[i].0.as_str(), key) {
                let e = &self.entries[i];
                proof {
                    lemma_table_value(self.entries@, i as int);
                }
                let p = &e.2;
                let mut v = chars_of("LSP: ");
                let mut k = chars_of(key);
                v.append(&mut k);
                let finishing = match p.percentage {
                    Some(x) => x >= 100,
                    None => false,
                };
                if finishing {
                    let mut f = chars_of(" (Finishing...)");
                    v.append(&mut f);
                    proof {
                        let r = progress_view(e.2);
                        let (st, sv) = status_of(key@, Some(r));
                        assert(v@ =~= st);
                        assert(self.view().contains_key((key@, e.1@)));
                    }
                    return (string_from_chars(v.as_slice()), ServerStatus::Finishing);
                }
                let mut open = chars_of(" (");
                v.append(&mut open);
                let mut t = chars_of(p.title.as_str());
                v.append(&mut t);
                let ghost head = v@;
                let mut m: Vec<char> = match &p.message {
                    Some(msg) => {
                        let mut x = chars_of(": ");
                        let mut y = chars_of(msg.as_str());
                        x.append(&mut y);
                        x
                    },
                    None => Vec::new(),
                };
                v.append(&mut m);
                let mut c: Vec<char> = match p.percentage {
                    Some(x) => {
                        let mut a = chars_of(" ");
                        let mut d = decimal_chars(x as usize);
                        let mut pc = chars_of("%");
                        a.append(&mut d);
                        a.append(&mut pc);
                        a
                    },
                    None => Vec::new(),
                };
                v.append(&mut c);
                let mut close = chars_of(")");
                v.append(&mut close);
                proof {
                    let r = progress_view(e.2);
                    let (st, sv) = status_of(key@, Some(r));
                    assert(v@ =~= st);
                    assert(self.view().contains_key((key@, e.1@)));
                }
                return (string_from_chars(v.as_slice()), ServerStatus::Working);
            }
            i = i + 1;
        }
        proof {
            assert forall|t: Seq<char>| !self.view().contains_key((key@, t)) by {
                lemma_table_dom(self.entries@, (key@, t));
                if self.view().contains_key((key@, t)) {
                    let j = choose|j: int| 0 <= j < self.entries@.len() && entry_key(#[trigger] self.entries@[j]) == (key@, t);
                    assert(self.entries@[j].0@ == key@);
                }
            }
        }
        let mut v = chars_of("LSP: ");
        let mut k = chars_of(key);
        v.append(&mut k);
        (string_from_chars(v.as_slice()), ServerStatus::Idle)
    }
}

/// A progress report as plain values: server, token, what it shows, and
/// whether it says the work is done.
pub type ReportView = (Seq<char>, Seq<char>, (Seq<char>, Option<Seq<char>>, Option<u32>), bool);

/// Progress reports as plain values.
pub open spec fn reports_view(rs: Seq<(String, String, LspProgress, bool)>) -> Seq<ReportView> {
    rs.map_values(|r: (String, String, LspProgress, bool)| (r.0@, r.1@, progress_view(r.2), r.3))
}

/// The table after the reports `rs`, one after the other: a done report
/// removes its entry, any other sets it.
pub open spec fn after_reports(
    m: Map<(Seq<char>, Seq<char>), (Seq<char>, Option<Seq<char>>, Option<u32>)>,
    rs: Seq<ReportView>,
) -> Map<(Seq<char>, Seq<char>), (Seq<char>, Option<Seq<char>>, Option<u32>)>
    decreases rs.len(),
{
    if rs.len() == 0 {
        m
    } else {
        let r = rs.last();
        let m1 = after_reports(m, rs.drop_last());
        if r.3 {
            m1.remove((r.0, r.1))
        } else {
            m1.insert((r.0, r.1), r.2)
        }
    }
}

/// The index of the last report for `k`, if any.
pub open spec fn last_report(rs: Seq<ReportView>, k: (Seq<char>, Seq<char>)) -> Option<int>
    decreases rs.len(),
{
    if rs.len() == 0 {
        None
    } else if (rs.last().0, rs.last().1) == k {
        Some(rs.len() - 1)
    } else {
        last_report(rs.drop_last(), k)
    }
}

/// After a run of reports, the table holds for each (server, token) what
/// its last report showed unless that report said the work is done; a pair
/// with no report keeps what the table held.
pub proof fn lemma_after_reports(
    m: Map<(Seq<char>, Seq<char>), (Seq<char>, Option<Seq<char>>, Option<u32>)>,
    rs: Seq<ReportView>,
    k: (Seq<char>, Seq<char>),
)
    ensures
        match last_report(rs, k) {
            Some(i) => 0 <= i < rs.len() && if rs[i].3 {
                !after_reports(m, rs).dom().contains(k)
            } else {
                after_reports(m, rs).dom().contains(k) && after_reports(m, rs)[k] == rs[i].2
            },
            None => after_reports(m, rs).dom().contains(k) == m.dom().contains(k) && (m.dom().contains(k)
                ==> after_reports(m, rs)[k] == m[k]),
        },
    decreases rs.len(),
{
    if rs.len() > 0 {
        lemma_after_reports(m, rs.drop_last(), k);
        let r = rs.last();
        if (r.0, r.1) != k {
            match last_report(rs.drop_last(), k) {
                Some(i) => {
                    assert(rs[i] == rs.drop_last()[i]);
                },
                None => {},
            }
        }
    }
}

impl ProgressTable {
    /// Applies the reports `rs`, one after the other.
    pub fn apply_reports(&mut self, rs: &Vec<(String, String, LspProgress, bool)>)
        requires
            old(self).wf(),
        ensures
            final(self).wf(),
            final(self).view() == after_reports(old(self).view(), reports_view(rs@)),
    {
        let ghost start = self.view();
        let mut i: usize = 0;
        while i < rs.len()
            invariant
                self.wf(),
                i <= rs@.len(),
                self.view() == after_reports(start, reports_view(rs@).take(i as int)),
            decreases rs@.len() - i,
        {
            let r = &rs[i];
            proof {
                let v = reports_view(rs@);
                assert(v.take(i + 1).drop_last() =~= v.take(i as int));
                assert(v.take(i + 1).last() == v[i as int]);
            }
            let p = LspProgress {
                title: r.2.title.clone(),
                message: match &r.2.message {
                    Some(m) => Some(m.clone()),
                    None => None,
                },
                percentage: r.2.percentage,
            };
            self.update(r.0.as_str(), r.1.as_str(), p, r.3);
            i = i + 1;
        }
        proof {
            assert(reports_view(rs@).take(rs@.len() as int) =~= reports_view(rs@));
        }
    }
}

/// The progress reports among events, in order.
pub open spec fn event_reports(es: Seq<EventModel>) -> Seq<ReportView>
    decreases es.len(),
{
    if es.len() == 0 {
        Seq::empty()
    } else {
        let r = event_reports(es.drop_last());
        match es.last() {
            EventModel::Progress(token, server, title, message, percentage, done) => r.push(
                (server, token, (title, message, percentage), done),
            ),
            _ => r,
        }
    }
}

/// The places to jump to that definition replies among events give: the
/// file of each `file://` URI, with the line and column where it starts.
pub open spec fn event_jumps(es: Seq<EventModel>) -> Seq<(Seq<char>, u32, u32)>
    decreases es.len(),
{
    if es.len() == 0 {
        Seq::empty()
    } else {
        let r = event_jumps(es.drop_last());
        match es.last() {
            EventModel::Definition(uri, range) => match uri_file_path(uri) {
                Some(p) => r.push((p, range.start.line, range.start.character)),
                None => r,
            },
            _ => r,
        }
    }
}

/// Jump places as plain values.
pub open spec fn jumps_view(v: Seq<(String, u32, u32)>) -> Seq<(Seq<char>, u32, u32)> {
    v.map_values(|j: (String, u32, u32)| (j.0@, j.1, j.2))
}

/// Handles a run of events from the language servers: each progress report
/// updates the table in turn, and each definition reply with a `file://`
/// URI gives a place to jump to, in order.
pub fn apply_events(table: &mut ProgressTable, events: &Vec<LspEvent>) -> (jumps: Vec<(String, u32, u32)>)
    requires
        old(table).wf(),
    ensures
        final(table).wf(),
        final(table).view() == after_reports(
            old(table).view(),
            event_reports(events@.map_values(|e: LspEvent| event_view(e))),
        ),
        jumps_view(jumps@) == event_jumps(events@.map_values(|e: LspEvent| event_view(e))),
{
    let ghost start = table.view();
    let ghost ev = events@.map_values(|e: LspEvent| event_view(e));
    let mut out: Vec<(String, u32, u32)> = Vec::new();
    let mut i: usize = 0;
    while i < events.len()
        invariant
            table.wf(),
            i <= events@.len(),
            ev == events@.map_values(|e: LspEvent| event_view(e)),
            table.view() == after_reports(start, event_reports(ev.take(i as int))),
            jumps_view(out@) == event_jumps(ev.take(i as int)),
        decreases events@.len() - i,
    {
        proof {
            assert(ev.take(i + 1).drop_last() =~= ev.take(i as int));
            assert(ev.take(i + 1).last() == event_view(events@[i as int]));
        }
        match &events[i] {
            LspEvent::Progress { token, server_key, title, message, percentage, done } => {
                let p = LspProgress {
                    title: title.clone(),
                    message: match message {
                        Some(m) => Some(m.clone()),
                        None => None,
                    },
                    percentage: *percentage,
                };
                table.update(server_key.as_str(), token.as_str(), p, *done);
                proof {
                    let rs = event_reports(ev.take(i + 1));
                    assert(rs == event_reports(ev.take(i as int)).push(
                        (server_key@, token@, (title@, opt_str(*message), *percentage), *done),
                    ));
                    assert(rs.drop_last() =~= event_reports(ev.take(i as int)));
                }
            },
            LspEvent::Definition { uri, range } => {
                match file_path_of_uri(uri.as_str()) {
                    Some(path) => {
                        let ghost before = out@;
                        out.push((path, range.start.line, range.start.character));
                        proof {
                            assert(jumps_view(out@) =~= jumps_view(before).push(
                                (path@, range.start.line, range.start.character),
                            ));
                        }
                    },
                    None => {},
                }
            },
            _ => {},
        }
        i = i + 1;
    }
    proof {
        assert(ev.take(events@.len() as int) =~= ev);
    }
    out
}

} // verus!
