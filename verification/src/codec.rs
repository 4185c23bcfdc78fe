//! The codec for the notification contract: each domain event is published
//! to the UI layer as a tag-discriminated payload of a fixed shape,
//!
//! ```text
//! { "type": "Created",  "path": <text> }
//! { "type": "Modified", "path": <text> }
//! { "type": "Deleted",  "path": <text> }
//! { "type": "Renamed",  "old_path": <text>, "new_path": <text> }
//! ```
//!
//! written without spaces and with `"` and `\` escaped by a backslash inside
//! the path text. [`serialize_event`] produces that payload, [`parse_event`]
//! reads it back, and [`lemma_round_trip`] proves that every event survives
//! the trip with its tag and fields intact.

use vstd::prelude::*;
use vstd::string::StrSliceExecFns;
use vstd::string::StringExecFns;

use crate::event::{EventView, FsEvent};

verus! {

/// A character the payload escapes inside path text.
pub open spec fn needs_escape(c: char) -> bool {
    c == '"' || c == '\\'
}

/// How one character stands in the payload's path text.
pub open spec fn esc_char(c: char) -> Seq<char> {
    if needs_escape(c) {
        seq!['\\', c]
    } else {
        seq![c]
    }
}

/// Path text as it stands in the payload: each character escaped as needed.
pub open spec fn escape(s: Seq<char>) -> Seq<char>
    decreases s.len(),
{
    if s.len() == 0 {
        Seq::empty()
    } else {
        esc_char(s[0]) + escape(s.skip(1))
    }
}

/// Escaped path text together with its closing quote.
pub open spec fn quoted(s: Seq<char>) -> Seq<char> {
    escape(s) + seq!['"']
}

/// The payload's head for a `Created` event, up to the opening quote of the
/// path text.
pub open spec fn created_prefix() -> Seq<char> {
    "{\"type\":\"Created\",\"path\":\""@
}

/// The payload's head for a `Modified` event.
pub open spec fn modified_prefix() -> Seq<char> {
    "{\"type\":\"Modified\",\"path\":\""@
}

/// The payload's head for a `Deleted` event.
pub open spec fn deleted_prefix() -> Seq<char> {
    "{\"type\":\"Deleted\",\"path\":\""@
}

/// The payload's head for a `Renamed` event, up to the opening quote of the
/// old path's text.
pub open spec fn renamed_prefix() -> Seq<char> {
    "{\"type\":\"Renamed\",\"old_path\":\""@
}

/// What stands between the old path's closing quote and the new path's text
/// in a `Renamed` payload.
pub open spec fn new_path_sep() -> Seq<char> {
    ",\"new_path\":\""@
}

/// The payload for one event: its head, each path quoted and escaped, and
/// the closing brace.
pub open spec fn spec_serialize(e: EventView) -> Seq<char> {
    match e {
        EventView::Created { path } => created_prefix() + quoted(path) + seq!['}'],
        EventView::Modified { path } => modified_prefix() + quoted(path) + seq!['}'],
        EventView::Deleted { path } => deleted_prefix() + quoted(path) + seq!['}'],
        EventView::Renamed { old_path, new_path } => renamed_prefix() + quoted(old_path)
            + new_path_sep() + quoted(new_path) + seq!['}'],
    }
}

/// Escaping one more character appends its escaped form.
proof fn lemma_escape_push(s: Seq<char>, c: char)
    ensures
        escape(s.push(c)) == escape(s) + esc_char(c),
    decreases s.len(),
{
    if s.len() == 0 {
        assert(s.push(c)[0] == c);
        assert(s.push(c).skip(1) =~= Seq::<char>::empty());
        assert(escape(Seq::<char>::empty()) =~= Seq::<char>::empty());
        assert(escape(s.push(c)) =~= escape(s) + esc_char(c));
    } else {
        lemma_escape_push(s.skip(1), c);
        assert(s.push(c).skip(1) =~= s.skip(1).push(c));
        assert(s.push(c)[0] == s[0]);
        assert(esc_char(s[0]) + (escape(s.skip(1)) + esc_char(c)) =~= (esc_char(s[0]) + escape(
            s.skip(1),
        )) + esc_char(c));
    }
}

/// Append the escaped form of `p` to `out`.
fn append_escaped(out: &mut String, p: &str)
    ensures
        final(out)@ == old(out)@ + escape(p@),
{
    let n = p.unicode_len();
    let mut i: usize = 0;
    proof {
        assert(p@.take(0) =~= Seq::<char>::empty());
        assert(old(out)@ + escape(p@.take(0)) =~= old(out)@);
    }
    while i < n
        invariant
            i <= n,
            n == p@.len(),
            out@ == old(out)@ + escape(p@.take(i as int)),
        decreases n - i,
    {
        let ghost prev = out@;
        let c = p.get_char(i);
        if c == '"' || c == '\\' {
            out.append("\\");
        }
        let frag = p.substring_char(i, i + 1);
        out.append(frag);
        proof {
            reveal_strlit("\\");
            lemma_escape_push(p@.take(i as int), p@[i as int]);
            assert(p@.take(i + 1) =~= p@.take(i as int).push(p@[i as int]));
            assert(frag@ =~= seq![p@[i as int]]);
            assert(out@ =~= prev + esc_char(p@[i as int]));
            assert(out@ =~= old(out)@ + escape(p@.take(i + 1)));
        }
        i += 1;
    }
    proof {
        assert(p@.take(n as int) =~= p@);
    }
}

/// Append the escaped form of `p` and its closing quote to `out`.
fn append_quoted(out: &mut String, p: &str)
    ensures
        final(out)@ == old(out)@ + quoted(p@),
{
    append_escaped(out, p);
    out.append("\"");
    proof {
        reveal_strlit("\"");
        assert(out@ =~= old(out)@ + quoted(p@));
    }
}

/// Serialize one event to its payload text.
pub fn serialize_event(e: &FsEvent) -> (r: String)
    ensures
        r@ == spec_serialize(e@),
{
    let mut out: String;
    match e {
        FsEvent::Created { path } => {
            out = String::from_str("{\"type\":\"Created\",\"path\":\"");
            append_quoted(&mut out, path.as_str());
        },
        FsEvent::Modified { path } => {
            out = String::from_str("{\"type\":\"Modified\",\"path\":\"");
            append_quoted(&mut out, path.as_str());
        },
        FsEvent::Deleted { path } => {
            out = String::from_str("{\"type\":\"Deleted\",\"path\":\"");
            append_quoted(&mut out, path.as_str());
        },
        FsEvent::Renamed { old_path, new_path } => {
            out = String::from_str("{\"type\":\"Renamed\",\"old_path\":\"");
            append_quoted(&mut out, old_path.as_str());
            out.append(",\"new_path\":\"");
            append_quoted(&mut out, new_path.as_str());
        },
    }
    out.append("}");
    proof {
        reveal_strlit("}");
        assert(out@ =~= spec_serialize(e@));
    }
    out
}

/// What is left of `s` after the prefix `p`, if `p` is one.
pub open spec fn strip_prefix(s: Seq<char>, p: Seq<char>) -> Option<Seq<char>> {
    if p.len() <= s.len() && s.take(p.len() as int) == p {
        Some(s.skip(p.len() as int))
    } else {
        None
    }
}

/// Read quoted text from the front of `s`: the text up to the first
/// unescaped quote, unescaped, and what follows that quote. `None` when no
/// unescaped quote closes the text.
pub open spec fn scan_string(s: Seq<char>) -> Option<(Seq<char>, Seq<char>)>
    decreases s.len(),
{
    if s.len() == 0 {
        None
    } else if s[0] == '"' {
        Some((Seq::empty(), s.skip(1)))
    } else if s[0] == '\\' {
        if s.len() < 2 {
            None
        } else {
            match scan_string(s.skip(2)) {
                None => None,
                Some(pr) => Some((seq![s[1]] + pr.0, pr.1)),
            }
        }
    } else {
        match scan_string(s.skip(1)) {
            None => None,
            Some(pr) => Some((seq![s[0]] + pr.0, pr.1)),
        }
    }
}

/// Read one quoted path and the payload's closing brace: what
/// `spec_parse` expects after a single-path head.
pub open spec fn parse_path_and_close(s: Seq<char>) -> Option<Seq<char>> {
    match scan_string(s) {
        None => None,
        Some(pr) => if pr.1 == seq!['}'] {
            Some(pr.0)
        } else {
            None
        },
    }
}

/// Read the two quoted paths of a `Renamed` payload and the closing brace:
/// what `spec_parse` expects after the `Renamed` head.
pub open spec fn parse_renamed_tail(s: Seq<char>) -> Option<(Seq<char>, Seq<char>)> {
    match scan_string(s) {
        None => None,
        Some(pr) => match strip_prefix(pr.1, new_path_sep()) {
            None => None,
            Some(rest) => match scan_string(rest) {
                None => None,
                Some(pr2) => if pr2.1 == seq!['}'] {
                    Some((pr.0, pr2.0))
                } else {
                    None
                },
            },
        },
    }
}

/// The event whose payload `s` is, if it is one: the head names the tag, and
/// the rest must hold the quoted paths and the closing brace, exactly.
pub open spec fn spec_parse(s: Seq<char>) -> Option<EventView> {
    match strip_prefix(s, created_prefix()) {
        Some(rest) => match parse_path_and_close(rest) {
            Some(p) => Some(EventView::Created { path: p }),
            None => None,
        },
        None => match strip_prefix(s, modified_prefix()) {
            Some(rest) => match parse_path_and_close(rest) {
                Some(p) => Some(EventView::Modified { path: p }),
                None => None,
            },
            None => match strip_prefix(s, deleted_prefix()) {
                Some(rest) => match parse_path_and_close(rest) {
                    Some(p) => Some(EventView::Deleted { path: p }),
                    None => None,
                },
                None => match strip_prefix(s, renamed_prefix()) {
                    Some(rest) => match parse_renamed_tail(rest) {
                        Some(pr) => Some(
                            EventView::Renamed { old_path: pr.0, new_path: pr.1 },
                        ),
                        None => None,
                    },
                    None => None,
                },
            },
        },
    }
}

/// Whether `p` stands at position `pos` of `s`; on success, the position
/// right after it.
fn match_sep_at(s: &str, pos: usize, p: &str) -> (r: Option<usize>)
    requires
        pos <= s@.len(),
    ensures
        match r {
            Some(np) => {
                &&& strip_prefix(s@.skip(pos as int), p@) matches Some(rest)
                &&& np <= s@.len()
                &&& rest == s@.skip(np as int)
            },
            None => strip_prefix(s@.skip(pos as int), p@) is None,
        },
{
    let n = s.unicode_len();
    let m = p.unicode_len();
    if m > n - pos {
        return None;
    }
    let mut i: usize = 0;
    while i < m
        invariant
            i <= m,
            pos + m <= n,
            n == s@.len(),
            m == p@.len(),
            forall|j: int| 0 <= j < i ==> s@[pos + j] == p@[j],
        decreases m - i,
    {
        if s.get_char(pos + i) != p.get_char(i) {
            proof {
                assert(s@.skip(pos as int).take(m as int)[i as int] == s@[pos + i]);
            }
            return None;
        }
        i += 1;
    }
    proof {
        assert(s@.skip(pos as int).take(m as int) =~= p@);
        assert(s@.skip(pos as int).skip(m as int) =~= s@.skip(pos + m));
    }
    Some(pos + m)
}

/// Read quoted text starting at position `pos` of `s`: the unescaped text
/// and the position right after its closing quote.
fn scan_string_at(s: &str, pos: usize) -> (r: Option<(String, usize)>)
    requires
        pos <= s@.len(),
    ensures
        match r {
            Some(pr) => {
                &&& scan_string(s@.skip(pos as int)) matches Some(sr)
                &&& sr.0 == pr.0@
                &&& pr.1 <= s@.len()
                &&& sr.1 == s@.skip(pr.1 as int)
            },
            None => scan_string(s@.skip(pos as int)) is None,
        },
    decreases s@.len() - pos,
{
    let n = s.unicode_len();
    if pos >= n {
        proof {
            assert(s@.skip(pos as int) =~= Seq::<char>::empty());
        }
        return None;
    }
    let c = s.get_char(pos);
    proof {
        assert(s@.skip(pos as int)[0] == c);
    }
    if c == '"' {
        proof {
            assert(s@.skip(pos as int).skip(1) =~= s@.skip(pos + 1));
        }
        Some((String::new(), pos + 1))
    } else if c == '\\' {
        if pos + 1 >= n {
            return None;
        }
        proof {
            assert(s@.skip(pos as int).skip(2) =~= s@.skip(pos + 2));
            assert(s@.skip(pos as int)[1] == s@[pos + 1]);
        }
        match scan_string_at(s, pos + 2) {
            None => None,
            Some((tail, np)) => {
                let mut content = s.substring_char(pos + 1, pos + 2).to_owned();
                content.append(tail.as_str());
                proof {
                    assert(content@ =~= seq![s@[pos + 1]] + tail@);
                }
                Some((content, np))
            },
        }
    } else {
        proof {
            assert(s@.skip(pos as int).skip(1) =~= s@.skip(pos + 1));
        }
        match scan_string_at(s, pos + 1) {
            None => None,
            Some((tail, np)) => {
                let mut content = s.substring_char(pos, pos + 1).to_owned();
                content.append(tail.as_str());
                proof {
                    assert(content@ =~= seq![s@[pos as int]] + tail@);
                }
                Some((content, np))
            },
        }
    }
}

/// Whether position `pos` of `s` holds the payload's closing brace and ends
/// it: whether what is left of `s` is exactly `}`.
fn close_brace_at(s: &str, pos: usize) -> (r: bool)
    requires
        pos <= s@.len(),
    ensures
        r == (s@.skip(pos as int) == seq!['}']),
{
    let n = s.unicode_len();
    proof {
        assert(seq!['}'].len() == 1);
        assert(s@.skip(pos as int).len() == n - pos);
    }
    if pos >= n {
        return false;
    }
    let c = s.get_char(pos);
    proof {
        assert(s@.skip(pos as int)[0] == c);
    }
    if c == '}' && pos + 1 == n {
        proof {
            assert(s@.skip(pos as int) =~= seq!['}']);
        }
        true
    } else {
        proof {
            if s@.skip(pos as int) == seq!['}'] {
                assert(s@.skip(pos as int)[0] == seq!['}'][0]);
                assert(false);
            }
        }
        false
    }
}

/// Read one quoted path and the closing brace at position `pos` of `s`.
fn parse_path_close_at(s: &str, pos: usize) -> (r: Option<String>)
    requires
        pos <= s@.len(),
    ensures
        match r {
            Some(p) => parse_path_and_close(s@.skip(pos as int)) == Some(p@),
            None => parse_path_and_close(s@.skip(pos as int)) is None,
        },
{
    match scan_string_at(s, pos) {
        None => None,
        Some((content, np)) => {
            if close_brace_at(s, np) {
                Some(content)
            } else {
                None
            }
        },
    }
}

/// Read the two quoted paths of a `Renamed` payload and the closing brace at
/// position `pos` of `s`.
fn parse_renamed_at(s: &str, pos: usize) -> (r: Option<(String, String)>)
    requires
        pos <= s@.len(),
    ensures
        match r {
            Some(pr) => parse_renamed_tail(s@.skip(pos as int)) == Some((pr.0@, pr.1@)),
            None => parse_renamed_tail(s@.skip(pos as int)) is None,
        },
{
    match scan_string_at(s, pos) {
        None => None,
        Some((old_path, np)) => match match_sep_at(s, np, ",\"new_path\":\"") {
            None => None,
            Some(np2) => match scan_string_at(s, np2) {
                None => None,
                Some((new_path, np3)) => {
                    if close_brace_at(s, np3) {
                        Some((old_path, new_path))
                    } else {
                        None
                    }
                },
            },
        },
    }
}

/// A prefix strips off what it was put in front of.
proof fn lemma_strip_concat(a: Seq<char>, b: Seq<char>)
    ensures
        strip_prefix(a + b, a) == Some(b),
{
    assert((a + b).take(a.len() as int) =~= a);
    assert((a + b).skip(a.len() as int) =~= b);
}

/// A text that differs from `p` inside `p`'s length does not carry it as a
/// prefix.
proof fn lemma_strip_mismatch(s: Seq<char>, p: Seq<char>, i: int)
    requires
        0 <= i < p.len() <= s.len(),
        s[i] != p[i],
    ensures
        strip_prefix(s, p) is None,
{
    assert(s.take(p.len() as int)[i] == s[i]);
}

/// Reading quoted text undoes quoting: scanning `quoted(p)` followed by
/// anything gives back exactly `p` and that anything.
proof fn lemma_scan_quoted(p: Seq<char>, rest: Seq<char>)
    ensures
        scan_string(quoted(p) + rest) == Some((p, rest)),
    decreases p.len(),
{
    let s = quoted(p) + rest;
    if p.len() == 0 {
        assert(escape(p) =~= Seq::<char>::empty());
        assert(s[0] == '"');
        assert(s.skip(1) =~= rest);
        assert(p =~= Seq::<char>::empty());
    } else {
        lemma_scan_quoted(p.skip(1), rest);
        assert(escape(p) == esc_char(p[0]) + escape(p.skip(1)));
        if needs_escape(p[0]) {
            assert(esc_char(p[0]) == seq!['\\', p[0]]);
            assert(escape(p)[0] == '\\');
            assert(escape(p)[1] == p[0]);
            assert(s[0] == '\\');
            assert(s[1] == p[0]);
            assert(s.len() >= 2);
            assert(s.skip(2) =~= quoted(p.skip(1)) + rest);
            assert(scan_string(s) == Some((seq![s[1]] + p.skip(1), rest)));
            assert(seq![p[0]] + p.skip(1) =~= p);
        } else {
            assert(esc_char(p[0]) == seq![p[0]]);
            assert(escape(p)[0] == p[0]);
            assert(s[0] == p[0]);
            assert(s.skip(1) =~= quoted(p.skip(1)) + rest);
            assert(scan_string(s) == Some((seq![s[0]] + p.skip(1), rest)));
            assert(seq![p[0]] + p.skip(1) =~= p);
        }
    }
}

/// Round trip: every event's payload parses back to that event, with its tag
/// and every path intact.
pub proof fn lemma_round_trip(e: EventView)
    ensures
        spec_parse(spec_serialize(e)) == Some(e),
{
    reveal_strlit("{\"type\":\"Created\",\"path\":\"");
    reveal_strlit("{\"type\":\"Modified\",\"path\":\"");
    reveal_strlit("{\"type\":\"Deleted\",\"path\":\"");
    reveal_strlit("{\"type\":\"Renamed\",\"old_path\":\"");
    reveal_strlit(",\"new_path\":\"");
    let s = spec_serialize(e);
    match e {
        EventView::Created { path } => {
            let tail = quoted(path) + seq!['}'];
            assert(s =~= created_prefix() + tail);
            lemma_strip_concat(created_prefix(), tail);
            lemma_scan_quoted(path, seq!['}']);
        },
        EventView::Modified { path } => {
            let tail = quoted(path) + seq!['}'];
            assert(s =~= modified_prefix() + tail);
            assert(s[9] == modified_prefix()[9]);
            lemma_strip_mismatch(s, created_prefix(), 9);
            lemma_strip_concat(modified_prefix(), tail);
            lemma_scan_quoted(path, seq!['}']);
        },
        EventView::Deleted { path } => {
            let tail = quoted(path) + seq!['}'];
            assert(s =~= deleted_prefix() + tail);
            assert(s[9] == deleted_prefix()[9]);
            lemma_strip_mismatch(s, created_prefix(), 9);
            lemma_strip_mismatch(s, modified_prefix(), 9);
            lemma_strip_concat(deleted_prefix(), tail);
            lemma_scan_quoted(path, seq!['}']);
        },
        EventView::Renamed { old_path, new_path } => {
            let mid = new_path_sep() + (quoted(new_path) + seq!['}']);
            let tail = quoted(old_path) + mid;
            assert(s =~= renamed_prefix() + tail);
            assert(s[9] == renamed_prefix()[9]);
            lemma_strip_mismatch(s, created_prefix(), 9);
            lemma_strip_mismatch(s, modified_prefix(), 9);
            lemma_strip_mismatch(s, deleted_prefix(), 9);
            lemma_strip_concat(renamed_prefix(), tail);
            lemma_scan_quoted(old_path, mid);
            lemma_strip_concat(new_path_sep(), quoted(new_path) + seq!['}']);
            lemma_scan_quoted(new_path, seq!['}']);
        },
    }
}

/// Parse a payload back into the event it stands for: `Some` exactly on the
/// payloads that [`serialize_event`] writes, `None` on every other text.
pub fn parse_event(s: &str) -> (r: Option<FsEvent>)
    ensures
        match r {
            Some(e) => spec_parse(s@) == Some(e@),
            None => spec_parse(s@) is None,
        },
{
    proof {
        assert(s@.skip(0) =~= s@);
    }
    if let Some(p0) = match_sep_at(s, 0, "{\"type\":\"Created\",\"path\":\"") {
        match parse_path_close_at(s, p0) {
            Some(path) => Some(FsEvent::Created { path }),
            None => None,
        }
    } else if let Some(p0) = match_sep_at(s, 0, "{\"type\":\"Modified\",\"path\":\"") {
        match parse_path_close_at(s, p0) {
            Some(path) => Some(FsEvent::Modified { path }),
            None => None,
        }
    } else if let Some(p0) = match_sep_at(s, 0, "{\"type\":\"Deleted\",\"path\":\"") {
        match parse_path_close_at(s, p0) {
            Some(path) => Some(FsEvent::Deleted { path }),
            None => None,
        }
    } else if let Some(p0) = match_sep_at(s, 0, "{\"type\":\"Renamed\",\"old_path\":\"") {
        match parse_renamed_at(s, p0) {
            Some((old_path, new_path)) => Some(FsEvent::Renamed { old_path, new_path }),
            None => None,
        }
    } else {
        None
    }
}

} // verus!
