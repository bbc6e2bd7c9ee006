//! Serving files from a directory.
//!
//! The path `/` stands for `/index.html`; every `../` is removed from the
//! path before it is joined to the directory.

use vstd::prelude::*;
use vstd::string::*;
use vstd::hash_map::StringHashMap;
use crate::context::{ServerContext, ServerHttpResponseContent};
use crate::text::{chars_of, ends_with, find_in, split_once, text_between, occurs_at, is_first_occurrence, lemma_find_first, lemma_find_none};

verus! {

/// `s` with every `../` removed, scanning from the left as `str::replace` does.
pub open spec fn without_parent_refs(s: Seq<char>) -> Seq<char>
    decreases s.len(),
{
    match split_once(s, seq!['.', '.', '/']) {
        Some((before, after)) => before + without_parent_refs(after),
        None => s,
    }
}

/// The file, relative to the directory, that a request path asks for.
pub open spec fn requested_file(path: Seq<char>) -> Seq<char> {
    without_parent_refs(if path == seq!['/'] { "/index.html"@ } else { path })
}

/// The content type announced for a file name.
pub open spec fn content_type_for(file_name: Seq<char>) -> Seq<char> {
    if ends_with(file_name, "html"@) {
        "text/html"@
    } else if ends_with(file_name, "png"@) {
        "image/png"@
    } else {
        "text/plain"@
    }
}

/// `s` holds no `../`.
pub open spec fn lacks_parent_ref(s: Seq<char>) -> bool {
    forall|j: int| !occurs_at(s, seq!['.', '.', '/'], j)
}

/// Every `../` is removed and nothing else: a path without one is kept as it
/// is, and the first `../` of a path goes while the text before it stays.
pub proof fn law_parent_refs_removed(a: Seq<char>, b: Seq<char>)
    requires
        lacks_parent_ref(a),
    ensures
        without_parent_refs(a) == a,
        without_parent_refs(a + seq!['.', '.', '/'] + b) == a + without_parent_refs(b),
{
    let pat = seq!['.', '.', '/'];
    lemma_find_none(a, pat);
    let s = a + pat + b;
    let n = a.len() as int;
    assert(s.subrange(n, n + 3) =~= pat);
    assert forall|j: int| 0 <= j < n implies !occurs_at(s, pat, j) by {
        if occurs_at(s, pat, j) {
            if j + 3 <= n {
                assert(a.subrange(j, j + 3) =~= s.subrange(j, j + 3));
                assert(occurs_at(a, pat, j));
            } else {
                assert(s.subrange(j, j + 3)[n - j] == s[n]);
                assert(s.subrange(j, j + 3)[2] == '/');
            }
        }
    }
    assert(is_first_occurrence(s, pat, n));
    lemma_find_first(s, pat, n);
    assert(s.take(n) =~= a);
    assert(s.skip(n + 3) =~= b);
}

/// `/` asks for `/index.html`; any other path without `../` asks for itself.
pub proof fn law_requested_file(path: Seq<char>)
    ensures
        requested_file(seq!['/']) == seq!['/', 'i', 'n', 'd', 'e', 'x', '.', 'h', 't', 'm', 'l'],
        path != seq!['/'] && lacks_parent_ref(path) ==> requested_file(path) == path,
{
    reveal_strlit("/index.html");
    let index = "/index.html"@;
    assert(index =~= seq!['/', 'i', 'n', 'd', 'e', 'x', '.', 'h', 't', 'm', 'l']);
    assert forall|j: int| !occurs_at(index, seq!['.', '.', '/'], j) by {
        if occurs_at(index, seq!['.', '.', '/'], j) {
            assert(index.subrange(j, j + 3)[0] == index[j]);
            assert(index.subrange(j, j + 3)[1] == index[j + 1]);
        }
    }
    law_parent_refs_removed(index, Seq::empty());
    if path != seq!['/'] && lacks_parent_ref(path) {
        law_parent_refs_removed(path, Seq::empty());
    }
}

/// A file name is announced as `text/html` exactly when its last four
/// characters are `html`; otherwise it is `image/png` when its last three are
/// `png`, and `text/plain` when it ends in neither.
pub proof fn law_content_type_by_suffix(name: Seq<char>)
    ensures
        content_type_for(name) == "text/html"@ <==> (name.len() >= 4
            && name.subrange(name.len() - 4, name.len() as int) == seq!['h', 't', 'm', 'l']),
        !(name.len() >= 4 && name.subrange(name.len() - 4, name.len() as int) == seq!['h', 't', 'm', 'l'])
            && name.len() >= 3 && name.subrange(name.len() - 3, name.len() as int) == seq!['p', 'n', 'g']
            ==> content_type_for(name) == "image/png"@,
        !(name.len() >= 4 && name.subrange(name.len() - 4, name.len() as int) == seq!['h', 't', 'm', 'l'])
            && !(name.len() >= 3 && name.subrange(name.len() - 3, name.len() as int) == seq!['p', 'n', 'g'])
            ==> content_type_for(name) == "text/plain"@,
{
    reveal_strlit("html");
    reveal_strlit("png");
    reveal_strlit("text/html");
    reveal_strlit("image/png");
    reveal_strlit("text/plain");
    assert("html"@ =~= seq!['h', 't', 'm', 'l']);
    assert("png"@ =~= seq!['p', 'n', 'g']);
    assert("image/png"@[0] != "text/html"@[0]);
    assert("text/plain"@.len() != "text/html"@.len());
    if name.len() >= 4 {
        assert(name.skip(name.len() - 4) =~= name.subrange(name.len() - 4, name.len() as int));
    }
    if name.len() >= 3 {
        assert(name.skip(name.len() - 3) =~= name.subrange(name.len() - 3, name.len() as int));
    }
}

/// Whether `s` ends with `suffix`.
pub fn text_ends_with(s: &str, suffix: &str) -> (r: bool)
    ensures
        r == ends_with(s@, suffix@),
{
    let text = chars_of(s);
    let tail = chars_of(suffix);
    let n = text.len();
    let m = tail.len();
    if m > n {
        return false;
    }
    let mut k: usize = 0;
    while k < m
        invariant
            n == text@.len(),
            m == tail@.len(),
            m <= n,
            k <= m,
            text@ == s@,
            tail@ == suffix@,
            forall|j: int| 0 <= j < k ==> text@[n - m + j] == tail@[j],
        decreases m - k,
    {
        if text[n - m + k] != tail[k] {
            assert(s@.skip(n - m)[k as int] != suffix@[k as int]);
            return false;
        }
        k = k + 1;
    }
    assert(s@.skip(n - m) =~= suffix@);
    true
}

/// Serves the files under `directory_path`.
pub struct ServeDirMiddleware {
    pub directory_path: String,
}

impl ServeDirMiddleware {
    /// The file, relative to the directory, that the request path asks for.
    pub fn file_path_for(&self, request_path: &str) -> (r: String)
        ensures
            r@ == requested_file(request_path@),
    {
        let requested = chars_of(request_path);
        let path = if requested.len() == 1 && requested[0] == '/' {
            assert(request_path@ =~= seq!['/']);
            "/index.html".to_owned()
        } else {
            assert(request_path@ != seq!['/']);
            request_path.to_owned()
        };
        let chars = chars_of(path.as_str());
        let n = chars.len();
        let mut pattern = Vec::new();
        pattern.push('.');
        pattern.push('.');
        pattern.push('/');
        assert(pattern@ =~= seq!['.', '.', '/']);
        let mut out = String::new();
        let mut pos: usize = 0;
        assert(path@.skip(0) =~= path@);
        loop
            invariant_except_break
                pos <= n,
                n == chars@.len(),
                chars@ == path@,
                pattern@ == seq!['.', '.', '/'],
                out@ + without_parent_refs(path@.skip(pos as int)) == without_parent_refs(path@),
            ensures
                out@ == without_parent_refs(path@),
            decreases n - pos,
        {
            let ghost rest = path@.skip(pos as int);
            assert(chars@.subrange(pos as int, n as int) =~= rest);
            match find_in(&chars, pos, n, &pattern) {
                Some(k) => {
                    let piece = text_between(path.as_str(), pos, k);
                    let ghost old_out = out@;
                    out.append(piece.as_str());
                    assert(rest.skip(k - pos + 3) =~= path@.skip(k + 3));
                    assert(piece@ =~= rest.take(k - pos));
                    assert(out@ + without_parent_refs(path@.skip(k + 3)) =~= old_out
                        + without_parent_refs(rest));
                    pos = k + 3;
                },
                None => {
                    let piece = text_between(path.as_str(), pos, n);
                    out.append(piece.as_str());
                    assert(piece@ =~= rest);
                    break ;
                },
            }
        }
        out
    }

    /// Where the file lies: the directory path followed by the file path.
    pub fn full_path(&self, file_path: &str) -> (r: String)
        ensures
            r@ == self.directory_path@ + file_path@,
    {
        let mut out = self.directory_path.clone();
        out.append(file_path);
        out
    }

    /// The content type announced for a file name: `text/html` for names ending
    /// in `html`, `image/png` for names ending in `png`, `text/plain` otherwise.
    pub fn content_type_for_file_name(&self, file_name: &str) -> (r: &'static str)
        ensures
            r@ == content_type_for(file_name@),
    {
        if text_ends_with(file_name, "html") {
            "text/html"
        } else if text_ends_with(file_name, "png") {
            "image/png"
        } else {
            "text/plain"
        }
    }

    /// Answers the request with the bytes read from `file_path`.
    pub fn respond_with_file(&self, context: &mut ServerContext, file_path: &str, bytes: Vec<u8>)
        ensures
            final(context).raw_message == old(context).raw_message,
            final(context).request == old(context).request,
            final(context).user == old(context).user,
            final(context).response matches Some(r) && {
                &&& r.code == 200
                &&& r.content == ServerHttpResponseContent::Binary(bytes)
                &&& r.content_length == bytes@.len() as i32
                &&& r.content_type@ == content_type_for(file_path@)
                &&& r.headers@ == Map::<Seq<char>, String>::empty()
            },
    {
        let content_type = self.content_type_for_file_name(file_path);
        context.response = Some(
            crate::context::ServerHttpResponse {
                code: 200,
                content_length: bytes.len() as i32,
                content: ServerHttpResponseContent::Binary(bytes),
                content_type: content_type.to_owned(),
                headers: StringHashMap::new(),
            },
        );
    }
}

} // verus!
