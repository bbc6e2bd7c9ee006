//! Parsing the raw message into a request.
//!
//! The first line holds the method and the path, separated by a space; each
//! later line is a header `name: value`. A header given twice keeps its last value.

use vstd::prelude::*;
use vstd::hash_map::StringHashMap;
use crate::context::{ServerContext, ServerHttpRequest, ServerHttpResponse, text_map};
use crate::text::{
    before_first, chars_of, find, find_in, is_first_occurrence, lemma_find_first,
    lemma_find_none_iff, occurs_at, split_once, text_between,
};

verus! {

/// The method and path of a request line: the text before the first space, and
/// the text after it up to the next space.
pub open spec fn method_and_path(line: Seq<char>) -> Option<(Seq<char>, Seq<char>)> {
    match split_once(line, seq![' ']) {
        Some((method, rest)) => Some((method, before_first(rest, seq![' ']))),
        None => None,
    }
}

/// The name and value of a header line, split at the first `": "`; a line
/// without one is a name with an empty value.
pub open spec fn header_entry(line: Seq<char>) -> (Seq<char>, Seq<char>) {
    match split_once(line, seq![':', ' ']) {
        Some(entry) => entry,
        None => (line, Seq::empty()),
    }
}

/// The headers given by `lines`, one per line; a later line overrides an
/// earlier one with the same name.
pub open spec fn header_map(lines: Seq<char>) -> Map<Seq<char>, Seq<char>>
    decreases lines.len(),
{
    let entry = header_entry(before_first(lines, seq!['\n']));
    let first = Map::<Seq<char>, Seq<char>>::empty().insert(entry.0, entry.1);
    match split_once(lines, seq!['\n']) {
        Some((_, rest)) => first.union_prefer_right(header_map(rest)),
        None => first,
    }
}

/// The method, path and headers of a message, when its first line is a request line.
pub open spec fn parsed_request(content: Seq<char>) -> Option<
    (Seq<char>, Seq<char>, Map<Seq<char>, Seq<char>>),
> {
    match method_and_path(before_first(content, seq!['\n'])) {
        Some((method, path)) => Some(
            (
                method,
                path,
                match split_once(content, seq!['\n']) {
                    Some((_, rest)) => header_map(rest),
                    None => Map::empty(),
                },
            ),
        ),
        None => None,
    }
}

proof fn lemma_occurs_char(s: Seq<char>, c: char, i: int)
    ensures
        occurs_at(s, seq![c], i) <==> (0 <= i < s.len() && s[i] == c),
{
    if 0 <= i < s.len() {
        if s[i] == c {
            assert(s.subrange(i, i + 1) =~= seq![c]);
        } else {
            assert(s.subrange(i, i + 1)[0] == s[i]);
        }
    }
}

/// A request line splits into a method and a path exactly when it holds a
/// space; then neither holds a space, and the line starts with the method, a
/// space and the path.
pub proof fn law_request_line(line: Seq<char>)
    ensures
        method_and_path(line) is None <==> !line.contains(' '),
        method_and_path(line) matches Some((method, path)) ==> {
            &&& !method.contains(' ')
            &&& !path.contains(' ')
            &&& line.take(method.len() + 1 + path.len() as int) == method + seq![' '] + path
        },
{
    let sp = seq![' '];
    lemma_find_none_iff(line, sp);
    if line.contains(' ') {
        let k = choose|k: int| 0 <= k < line.len() && line[k] == ' ';
        lemma_occurs_char(line, ' ', k);
    } else {
        assert forall|j: int| !occurs_at(line, sp, j) by {
            lemma_occurs_char(line, ' ', j);
        }
    }
    if let Some(i) = find(line, sp) {
        assert(is_first_occurrence(line, sp, i));
        let method = line.take(i);
        let rest = line.skip(i + 1);
        assert(!method.contains(' ')) by {
            assert forall|j: int| 0 <= j < method.len() implies method[j] != ' ' by {
                lemma_occurs_char(line, ' ', j);
            }
        }
        lemma_find_none_iff(rest, sp);
        let path = before_first(rest, sp);
        match find(rest, sp) {
            Some(j) => {
                assert(is_first_occurrence(rest, sp, j));
                assert forall|m: int| 0 <= m < path.len() implies path[m] != ' ' by {
                    lemma_occurs_char(rest, ' ', m);
                }
            },
            None => {
                assert forall|m: int| 0 <= m < path.len() implies path[m] != ' ' by {
                    lemma_occurs_char(rest, ' ', m);
                }
            },
        }
        lemma_occurs_char(line, ' ', i);
        assert(line.take(method.len() + 1 + path.len() as int) =~= method + sp + path);
    }
}

/// The first occurrence of a character in `a` is its first occurrence in any
/// text that starts with `a`; when `a` lacks it and `rest` starts with it, its
/// first occurrence is where `rest` starts.
proof fn lemma_find_char_in_prefix(a: Seq<char>, rest: Seq<char>, c: char)
    ensures
        find(a, seq![c]) matches Some(i) ==> find(a + rest, seq![c]) == Some(i),
        (find(a, seq![c]) is None && rest.len() > 0 && rest[0] == c) ==> find(a + rest, seq![c])
            == Some(a.len() as int),
{
    let pat = seq![c];
    let s = a + rest;
    assert forall|j: int| 0 <= j && j + 1 <= a.len() implies #[trigger] occurs_at(s, pat, j)
        == occurs_at(a, pat, j) by {
        assert(s.subrange(j, j + 1) =~= a.subrange(j, j + 1));
    }
    if let Some(i) = find(a, pat) {
        assert(is_first_occurrence(a, pat, i));
        assert(occurs_at(s, pat, i));
        assert(is_first_occurrence(s, pat, i));
        lemma_find_first(s, pat, i);
    } else if rest.len() > 0 && rest[0] == c {
        lemma_find_none_iff(a, pat);
        let n = a.len() as int;
        assert(s.subrange(n, n + 1) =~= pat);
        assert forall|j: int| 0 <= j < n implies !occurs_at(s, pat, j) by {
            assert(!occurs_at(a, pat, j));
        }
        assert(is_first_occurrence(s, pat, n));
        lemma_find_first(s, pat, n);
    }
}

/// `c` first occurs in `a + seq![c] + b` right after `a` when `a` lacks it.
proof fn lemma_find_after_prefix(a: Seq<char>, b: Seq<char>, c: char)
    requires
        !a.contains(c),
    ensures
        find(a + seq![c] + b, seq![c]) == Some(a.len() as int),
{
    assert forall|j: int| !occurs_at(a, seq![c], j) by {
        lemma_occurs_char(a, c, j);
        if 0 <= j < a.len() && a[j] == c {
            assert(a.contains(c));
        }
    }
    lemma_find_none_iff(a, seq![c]);
    assert(a + seq![c] + b =~= a + (seq![c] + b));
    lemma_find_char_in_prefix(a, seq![c] + b, c);
}

/// A text that lacks `c` has no occurrence of it.
proof fn lemma_find_absent(s: Seq<char>, c: char)
    requires
        !s.contains(c),
    ensures
        find(s, seq![c]) is None,
{
    assert forall|j: int| !occurs_at(s, seq![c], j) by {
        lemma_occurs_char(s, c, j);
        if 0 <= j < s.len() && s[j] == c {
            assert(s.contains(c));
        }
    }
    lemma_find_none_iff(s, seq![c]);
}

/// `s` holds `": "` nowhere.
pub open spec fn lacks_separator(s: Seq<char>) -> bool {
    forall|i: int| 0 <= i < s.len() - 1 ==> !(#[trigger] s[i] == ':' && s[i + 1] == ' ')
}

/// A request line written as a method, a space and a path, neither holding a
/// space, is read back as that method and path.
pub proof fn law_request_line_round_trip(method: Seq<char>, path: Seq<char>)
    requires
        !method.contains(' '),
        !path.contains(' '),
    ensures
        method_and_path(method + seq![' '] + path) == Some((method, path)),
{
    let line = method + seq![' '] + path;
    lemma_find_after_prefix(method, path, ' ');
    assert(line.take(method.len() as int) =~= method);
    assert(line.skip(method.len() as int + 1) =~= path);
    lemma_find_absent(path, ' ');
}

/// A header line splits at its first `": "`: written as a name holding no
/// `": "`, then `": "`, then any value, it is read back as exactly that name
/// and that whole value, up to the end of the line.
pub proof fn law_header_entry_splits_at_first_separator(name: Seq<char>, value: Seq<char>)
    requires
        lacks_separator(name),
    ensures
        header_entry(name + seq![':', ' '] + value) == (name, value),
{
    let line = name + seq![':', ' '] + value;
    let sep = seq![':', ' '];
    let n = name.len() as int;
    assert forall|j: int| 0 <= j < n implies !occurs_at(line, sep, j) by {
        if occurs_at(line, sep, j) {
            assert(line.subrange(j, j + 2)[0] == line[j]);
            assert(line.subrange(j, j + 2)[1] == line[j + 1]);
            assert(line[j] == name[j]);
            if j + 1 < n {
                assert(line[j + 1] == name[j + 1]);
            } else {
                assert(line[j + 1] == ':');
            }
        }
    }
    assert(line.subrange(n, n + 2) =~= sep);
    assert(is_first_occurrence(line, sep, n));
    lemma_find_first(line, sep, n);
    assert(line.take(n) =~= name);
    assert(line.skip(n + 2) =~= value);
}

/// A header line without `": "` is a name with an empty value.
pub proof fn law_header_entry_without_separator(line: Seq<char>)
    requires
        lacks_separator(line),
    ensures
        header_entry(line) == (line, Seq::<char>::empty()),
{
    let sep = seq![':', ' '];
    assert forall|j: int| !occurs_at(line, sep, j) by {
        if occurs_at(line, sep, j) {
            assert(line.subrange(j, j + 2)[0] == line[j]);
            assert(line.subrange(j, j + 2)[1] == line[j + 1]);
        }
    }
    lemma_find_none_iff(line, sep);
}

/// A header line written as a name, `": "` and a value is read back as that
/// name and value, when the name holds no `": "` and neither holds a line break.
pub proof fn law_header_line_round_trip(name: Seq<char>, value: Seq<char>)
    requires
        lacks_separator(name),
        !name.contains('\n'),
        !value.contains('\n'),
    ensures
        header_map(name + seq![':', ' '] + value) == Map::<Seq<char>, Seq<char>>::empty().insert(
            name,
            value,
        ),
{
    let line = name + seq![':', ' '] + value;
    law_header_entry_splits_at_first_separator(name, value);
    assert(!line.contains('\n')) by {
        if line.contains('\n') {
            let k = choose|k: int| 0 <= k < line.len() && line[k] == '\n';
            if k < name.len() {
                assert(line[k] == name[k]);
            } else if k >= name.len() + 2 {
                assert(line[k] == value[k - name.len() - 2]);
            }
        }
    }
    lemma_find_absent(line, '\n');
}

/// A message written as a request line, a line break and header lines is read
/// back as the method, the path and the headers of those lines.
pub proof fn law_request_round_trip(method: Seq<char>, path: Seq<char>, lines: Seq<char>)
    requires
        !method.contains(' '),
        !method.contains('\n'),
        !path.contains(' '),
        !path.contains('\n'),
    ensures
        parsed_request(method + seq![' '] + path + seq!['\n'] + lines) == Some(
            (method, path, header_map(lines)),
        ),
{
    let first = method + seq![' '] + path;
    let message = first + seq!['\n'] + lines;
    assert(!first.contains('\n')) by {
        if first.contains('\n') {
            let k = choose|k: int| 0 <= k < first.len() && first[k] == '\n';
            if k < method.len() {
                assert(first[k] == method[k]);
            } else if k > method.len() {
                assert(first[k] == path[k - method.len() - 1]);
            }
        }
    }
    lemma_find_after_prefix(first, lines, '\n');
    assert(message.take(first.len() as int) =~= first);
    assert(message.skip(first.len() as int + 1) =~= lines);
    law_request_line_round_trip(method, path);
}

/// Header lines given in two blocks, one after the other: every name keeps
/// the value of its last line, so a name given in both blocks keeps the value
/// from the later block.
pub proof fn law_later_headers_override(a: Seq<char>, b: Seq<char>)
    ensures
        header_map(a + seq!['\n'] + b) == header_map(a).union_prefer_right(header_map(b)),
    decreases a.len(),
{
    let s = a + seq!['\n'] + b;
    assert(s =~= a + (seq!['\n'] + b));
    lemma_find_char_in_prefix(a, seq!['\n'] + b, '\n');
    match find(a, seq!['\n']) {
        None => {
            assert(s.take(a.len() as int) =~= a);
            assert(s.skip(a.len() as int + 1) =~= b);
            assert(header_map(a) == Map::<Seq<char>, Seq<char>>::empty().insert(
                header_entry(a).0,
                header_entry(a).1,
            ));
        },
        Some(i) => {
            let tail = a.skip(i + 1);
            assert(s.take(i) =~= a.take(i));
            assert(s.skip(i + 1) =~= tail + seq!['\n'] + b);
            law_later_headers_override(tail, b);
            let entry = header_entry(a.take(i));
            let first = Map::<Seq<char>, Seq<char>>::empty().insert(entry.0, entry.1);
            assert(header_map(s) == first.union_prefer_right(header_map(tail + seq!['\n'] + b)));
            assert(header_map(a) == first.union_prefer_right(header_map(tail)));
            assert(header_map(s) =~= header_map(a).union_prefer_right(header_map(b)));
        },
    }
}

/// Parses the raw message; answers with an internal error when it is not a request.
pub struct HttpParsingMiddleware;

fn single_char(c: char) -> (v: Vec<char>)
    ensures
        v@ == seq![c],
{
    let mut v = Vec::new();
    v.push(c);
    assert(v@ =~= seq![c]);
    v
}

impl HttpParsingMiddleware {
    /// Parses `content` into a request.
    pub fn parse_request(&self, content: &str) -> (r: Option<ServerHttpRequest>)
        ensures
            match r {
                Some(request) => parsed_request(content@) == Some(
                    (request.method@, request.path@, text_map(request.headers@)),
                ),
                None => parsed_request(content@) is None,
            },
    {
        let chars = chars_of(content);
        let n = chars.len();
        let newline = single_char('\n');
        assert(chars@.subrange(0, n as int) =~= content@);
        let found = find_in(&chars, 0, n, &newline);
        let line_end = match found {
            Some(k) => k,
            None => n,
        };
        let line = text_between(content, 0, line_end);
        assert(line@ == before_first(content@, seq!['\n']));
        match self.parse_method_and_path(line.as_str()) {
            None => None,
            Some((method, path)) => {
                let headers = match found {
                    Some(k) => {
                        let rest = text_between(content, k + 1, n);
                        assert(rest@ =~= content@.skip(k + 1));
                        self.parse_headers(rest.as_str())
                    },
                    None => StringHashMap::new(),
                };
                proof {
                    if found is None {
                        assert(text_map(headers@) =~= Map::<Seq<char>, Seq<char>>::empty());
                    }
                }
                Some(ServerHttpRequest { method, path, headers })
            },
        }
    }

    /// The method and path of a request line.
    pub fn parse_method_and_path(&self, line: &str) -> (r: Option<(String, String)>)
        ensures
            match r {
                Some((method, path)) => method_and_path(line@) == Some((method@, path@)),
                None => method_and_path(line@) is None,
            },
    {
        let chars = chars_of(line);
        let n = chars.len();
        let space = single_char(' ');
        assert(chars@.subrange(0, n as int) =~= line@);
        match find_in(&chars, 0, n, &space) {
            None => None,
            Some(i) => {
                let method = text_between(line, 0, i);
                let path_end = match find_in(&chars, i + 1, n, &space) {
                    Some(j) => j,
                    None => n,
                };
                let path = text_between(line, i + 1, path_end);
                assert(line@.skip(i + 1) =~= chars@.subrange(i + 1, n as int));
                assert(path@ =~= before_first(line@.skip(i + 1), seq![' ']));
                Some((method, path))
            },
        }
    }

    /// The name and value of the header line `text[start..end]`.
    fn parse_header_line(&self, text: &str, chars: &Vec<char>, start: usize, end: usize) -> (r: (
        String,
        String,
    ))
        requires
            chars@ == text@,
            start <= end <= chars@.len(),
        ensures
            (r.0@, r.1@) == header_entry(text@.subrange(start as int, end as int)),
    {
        let mut separator = single_char(':');
        separator.push(' ');
        assert(separator@ =~= seq![':', ' ']);
        let ghost line = text@.subrange(start as int, end as int);
        match find_in(chars, start, end, &separator) {
            Some(k) => {
                let name = text_between(text, start, k);
                let value = text_between(text, k + 2, end);
                assert(name@ =~= line.take(k - start));
                assert(value@ =~= line.skip(k - start + 2));
                (name, value)
            },
            None => {
                let name = text_between(text, start, end);
                (name, String::new())
            },
        }
    }

    /// The headers given by `lines`, one per line.
    pub fn parse_headers(&self, lines: &str) -> (r: StringHashMap<String>)
        ensures
            text_map(r@) == header_map(lines@),
    {
        let chars = chars_of(lines);
        let n = chars.len();
        let newline = single_char('\n');
        let mut headers: StringHashMap<String> = StringHashMap::new();
        let mut pos: usize = 0;
        assert(lines@.skip(0) =~= lines@);
        assert(text_map(headers@).union_prefer_right(header_map(lines@)) =~= header_map(lines@));
        loop
            invariant_except_break
                pos <= n,
                n == chars@.len(),
                chars@ == lines@,
                newline@ == seq!['\n'],
                text_map(headers@).union_prefer_right(header_map(lines@.skip(pos as int)))
                    == header_map(lines@),
            ensures
                text_map(headers@) == header_map(lines@),
            decreases n - pos,
        {
            let ghost rest = lines@.skip(pos as int);
            let ghost before = text_map(headers@);
            assert(chars@.subrange(pos as int, n as int) =~= rest);
            let found = find_in(&chars, pos, n, &newline);
            let end = match found {
                Some(k) => k,
                None => n,
            };
            let (name, value) = self.parse_header_line(lines, &chars, pos, end);
            assert(lines@.subrange(pos as int, end as int) =~= before_first(rest, seq!['\n']));
            let ghost first = Map::<Seq<char>, Seq<char>>::empty().insert(name@, value@);
            headers.insert(name, value);
            assert(text_map(headers@) =~= before.insert(name@, value@));
            match found {
                Some(k) => {
                    assert(rest.skip(k - pos + 1) =~= lines@.skip(k + 1));
                    assert(header_map(rest) == first.union_prefer_right(
                        header_map(lines@.skip(k + 1)),
                    ));
                    assert(before.union_prefer_right(header_map(rest)) =~= text_map(
                        headers@,
                    ).union_prefer_right(header_map(lines@.skip(k + 1))));
                    pos = k + 1;
                },
                None => {
                    assert(header_map(rest) == first);
                    assert(before.union_prefer_right(header_map(rest)) =~= text_map(headers@));
                    break ;
                },
            }
        }
        headers
    }

    /// The part of the middleware that runs before the rest of the pipeline:
    /// parses the raw message into the request and returns `true`, or, when the
    /// message is not a request, answers with an internal error and returns
    /// `false`, so that the pipeline stops.
    pub fn before_next(&self, context: &mut ServerContext) -> (proceed: bool)
        ensures
            final(context).raw_message == old(context).raw_message,
            final(context).user == old(context).user,
            proceed == parsed_request(old(context).raw_message@) is Some,
            proceed ==> {
                &&& final(context).response == old(context).response
                &&& parsed_request(old(context).raw_message@) == Some(
                    (
                        final(context).request.method@,
                        final(context).request.path@,
                        text_map(final(context).request.headers@),
                    ),
                )
            },
            !proceed ==> {
                &&& final(context).request == old(context).request
                &&& final(context).response matches Some(r) && r.is_bodyless(500)
            },
    {
        match self.parse_request(context.raw_message.as_str()) {
            None => {
                context.response = Some(ServerHttpResponse::internal_error());
                false
            },
            Some(request) => {
                context.request = request;
                true
            },
        }
    }

    /// The part of the middleware that runs after the rest of the pipeline:
    /// a request that nothing answered is answered with "not found".
    pub fn after_next(&self, context: &mut ServerContext)
        ensures
            final(context).raw_message == old(context).raw_message,
            final(context).request == old(context).request,
            final(context).user == old(context).user,
            old(context).response is Some ==> final(context).response == old(context).response,
            old(context).response is None ==> (final(context).response matches Some(r)
                && r.is_bodyless(404)),
    {
        if context.response.is_none() {
            context.response = Some(ServerHttpResponse::not_found());
        }
    }
}

} // verus!
