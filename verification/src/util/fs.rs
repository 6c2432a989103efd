//! Decides which file answers a request.

use vstd::prelude::*;

use crate::error::ErrorKind;
use crate::foreign::{guess_mime_type, header_value, uri_path};
use crate::message::Request;
use crate::response::{Response, ResponseView};
use crate::text::{ascii_bytes, from_chars, to_chars};
use std::path::PathBuf;

verus! {

/// Serves the files of a single `root` directory.
#[derive(Debug)]
pub struct FileServer {
    pub root: PathBuf,
    pub index_files: Vec<PathBuf>,
    pub hide_hidden_files: bool,
}

/// What a requested path leads to.
#[derive(Debug)]
pub enum Lookup {
    /// The path leads out of the root directory.
    Forbidden,
    /// The path leads to a hidden file.
    Hidden,
    /// The path may be served, relative to the root directory.
    Serve(String),
}

/// What a [`Lookup`] holds.
#[verifier::ext_equal]
pub enum LookupView {
    Forbidden,
    Hidden,
    Serve(Seq<char>),
}

impl View for Lookup {
    type V = LookupView;

    open spec fn view(&self) -> LookupView {
        match self {
            Lookup::Forbidden => LookupView::Forbidden,
            Lookup::Hidden => LookupView::Hidden,
            Lookup::Serve(path) => LookupView::Serve(path@),
        }
    }
}

/// Which file to try next.
#[derive(Debug, Clone, Copy, PartialEq, Eq, Structural)]
pub enum Attempt {
    /// The file which was asked for.
    File,
    /// The index file with the given position.
    Index(usize),
    /// There is none.
    NotFound,
}

/// Whether `part` occurs at the place `i` of a text.
pub open spec fn occurs_at(s: Seq<char>, part: Seq<char>, i: int) -> bool {
    0 <= i <= s.len() - part.len() && s.subrange(i, i + part.len()) == part
}

/// Whether `part` occurs in a text.
pub open spec fn contains(s: Seq<char>, part: Seq<char>) -> bool {
    exists|i: int| occurs_at(s, part, i)
}

/// The file to try after `tried` files were not found, where `count` is the number of index files.
pub open spec fn attempt_after(count: int, is_dir: bool, tried: usize) -> Attempt {
    if is_dir {
        if tried < count {
            Attempt::Index(tried)
        } else {
            Attempt::NotFound
        }
    } else if tried == 0 {
        Attempt::File
    } else {
        Attempt::NotFound
    }
}

/// The status with which a path is refused.
pub open spec fn refusal_status(lookup: LookupView) -> u16 {
    if lookup is Forbidden {
        403
    } else {
        404
    }
}

/// The status with which a file that can not be opened is refused, if it is there.
pub open spec fn open_refusal_status(kind: ErrorKind) -> Option<u16> {
    match kind {
        ErrorKind::NotFound => None,
        ErrorKind::PermissionDenied => Some(403),
        _ => Some(500),
    }
}

/// A path without the slashes at its begin.
pub open spec fn without_slashes(s: Seq<char>) -> Seq<char>
    decreases s.len(),
{
    if s.len() > 0 && s[0] == '/' {
        without_slashes(s.skip(1))
    } else {
        s
    }
}

/// Whether the last component of a path is the parent directory.
pub open spec fn ends_in_parent(path: Seq<char>) -> bool {
    let n = path.len() as int;
    &&& n >= 2
    &&& path[n - 1] == '.'
    &&& path[n - 2] == '.'
    &&& n == 2 || path[n - 3] == '/'
}

/// What a path leads to.
pub open spec fn looked_up(path: Seq<char>, hide: bool) -> LookupView {
    let rest = without_slashes(path);
    if contains(rest, seq!['.', '.', '/']) {
        LookupView::Forbidden
    } else if hide && (occurs_at(rest, seq!['.'], 0) || contains(rest, seq!['/', '.'])) {
        LookupView::Hidden
    } else if ends_in_parent(rest) {
        LookupView::Forbidden
    } else {
        LookupView::Serve(rest)
    }
}

/// Tells whether `part` occurs at the place `i` of a text.
fn find_at(s: &Vec<char>, part: &Vec<char>, i: usize) -> (ret: bool)
    requires
        part@.len() > 0,
        i <= s@.len(),
    ensures
        ret == occurs_at(s@, part@, i as int),
{
    let len: usize = s.len();
    if part.len() > len - i {
        return false;
    }
    let mut j: usize = 0;
    while j < part.len()
        invariant
            j <= part@.len(),
            i + part@.len() <= len,
            len == s@.len(),
            forall|k: int| 0 <= k < j ==> s@[i + k] == part@[k],
        decreases part@.len() - j,
    {
        if s[i + j] != part[j] {
            proof {
                assert(s@.subrange(i as int, i + part@.len())[j as int] != part@[j as int]);
            }
            return false;
        }
        j = j + 1;
    }
    proof {
        assert(s@.subrange(i as int, i + part@.len()) =~= part@);
    }

    true
}

/// Tells whether `part` occurs in a text.
fn find(s: &Vec<char>, part: &Vec<char>) -> (ret: bool)
    requires
        part@.len() > 0,
    ensures
        ret == contains(s@, part@),
{
    let mut i: usize = 0;
    while i < s.len()
        invariant
            i <= s@.len(),
            part@.len() > 0,
            forall|k: int| 0 <= k < i ==> !occurs_at(s@, part@, k),
        decreases s@.len() - i,
    {
        if find_at(s, part, i) {
            return true;
        }
        i = i + 1;
    }

    false
}

impl FileServer {
    /// Create a server which serves the provided `root` directory.
    pub fn new(root: PathBuf) -> (server: Self)
        ensures
            server.root == root,
            server.index_files@.len() == 0,
            server.hide_hidden_files,
    {
        Self::new_with_index_files(root, Vec::new())
    }

    /// Create a server which serves the provided `root` directory und uses the provided list of
    /// names of `index_files` to serve requests which point to a directory.
    pub fn new_with_index_files(root: PathBuf, index_files: Vec<PathBuf>) -> (server: Self)
        ensures
            server.root == root,
            server.index_files == index_files,
            server.hide_hidden_files,
    {
        FileServer { root, index_files, hide_hidden_files: true }
    }

    /// Check if the server is configured to hide hidden files.
    pub fn hide_hidden_files(&self) -> (hide: bool)
        ensures
            hide == self.hide_hidden_files,
    {
        self.hide_hidden_files
    }

    /// Set if the server should hide hidden files.
    pub fn set_hide_hidden_files(&mut self, hide: bool)
        ensures
            *final(self) == (FileServer { hide_hidden_files: hide, ..*old(self) }),
    {
        self.hide_hidden_files = hide;
    }

    /// Finds out what a path leads to.
    pub fn look_up(&self, path: &str) -> (ret: Lookup)
        ensures
            ret@ == looked_up(path@, self.hide_hidden_files),
    {
        let mut rest: Vec<char> = to_chars(path);
        while rest.len() > 0 && rest[0] == '/'
            invariant
                without_slashes(path@) == without_slashes(rest@),
            decreases rest@.len(),
        {
            let ghost before = rest@;
            rest.remove(0);
            proof {
                assert(rest@ =~= before.skip(1));
            }
        }
        let parent: Vec<char> = vec!['.', '.', '/'];
        let dot: Vec<char> = vec!['.'];
        let slash_dot: Vec<char> = vec!['/', '.'];
        proof {
            assert(parent@ =~= seq!['.', '.', '/']);
            assert(dot@ =~= seq!['.']);
            assert(slash_dot@ =~= seq!['/', '.']);
        }
        // Make sure the client does not try to read parent folders!
        if find(&rest, &parent) {
            return Lookup::Forbidden;
        }
        if self.hide_hidden_files {
            if find_at(&rest, &dot, 0) || find(&rest, &slash_dot) {
                return Lookup::Hidden;
            }
        }

        let len: usize = rest.len();
        if len >= 2 && rest[len - 1] == '.' && rest[len - 2] == '.' && (len == 2 || rest[len - 3]
            == '/') {
            return Lookup::Forbidden;
        }

        Lookup::Serve(from_chars(rest.as_slice()))
    }

    /// Finds out what the target of a request leads to. Returns `None` if the target is invalid.
    pub fn look_up_request(&self, req: &Request) -> (ret: Option<Lookup>)
        ensures
            match crate::foreign::path_of_uri(req@.target) {
                Some(path) => ret matches Some(ret) && ret@ == looked_up(
                    path,
                    self.hide_hidden_files,
                ),
                None => ret is None,
            },
    {
        match uri_path(req.target.as_slice()) {
            Some(path) => Some(self.look_up(path.as_str())),
            None => None,
        }
    }

    /// Chooses the file to try next, after `tried` files were not found.
    pub fn next_attempt(&self, is_dir: bool, tried: usize) -> (attempt: Attempt)
        ensures
            attempt == attempt_after(self.index_files@.len() as int, is_dir, tried),
            attempt == if is_dir {
                if tried < self.index_files@.len() {
                    Attempt::Index(tried)
                } else {
                    Attempt::NotFound
                }
            } else if tried == 0 {
                Attempt::File
            } else {
                Attempt::NotFound
            },
    {
        if is_dir {
            if tried < self.index_files.len() {
                Attempt::Index(tried)
            } else {
                Attempt::NotFound
            }
        } else if tried == 0 {
            Attempt::File
        } else {
            Attempt::NotFound
        }
    }
}

/// The answer which has no body: the file is forbidden, hidden or not found, or it can not be
/// opened.
pub fn refusal(lookup: &Lookup) -> (resp: Response)
    ensures
        resp@.status == refusal_status(lookup@),
        resp@ == (ResponseView {
            status: if lookup@ is Forbidden {
                403
            } else {
                404
            },
            version: crate::message::Version::Http11,
            fields: Seq::empty(),
        }).with_header("content-length"@, crate::text::ascii("0"@)),
{
    match lookup {
        Lookup::Forbidden => Response::without_body(403),
        Lookup::Hidden => Response::without_body(404),
        Lookup::Serve(_) => Response::without_body(404),
    }
}

/// The answer to a request for a file which can not be opened, or `None` if there is no such file.
pub fn open_refusal(kind: ErrorKind) -> (resp: Option<Response>)
    ensures
        open_refusal_status(kind) == match resp {
            Some(resp) => Some(resp@.status),
            None => None,
        },
        match resp {
            None => kind == ErrorKind::NotFound,
            Some(resp) => {
                &&& kind != ErrorKind::NotFound
                &&& resp@ == (ResponseView {
                    status: if kind == ErrorKind::PermissionDenied {
                        403
                    } else {
                        500
                    },
                    version: crate::message::Version::Http11,
                    fields: Seq::empty(),
                }).with_header("content-length"@, crate::text::ascii("0"@))
            },
        },
{
    match kind {
        ErrorKind::NotFound => None,
        ErrorKind::PermissionDenied => Some(Response::without_body(403)),
        _ => Some(Response::without_body(500)),
    }
}

/// The head of the answer with a file of the given MIME type. `readable` tells whether the file can
/// be used as a body.
pub open spec fn file_head(mime: Option<Seq<char>>, readable: bool) -> ResponseView {
    let plain = ResponseView {
        status: 200,
        version: crate::message::Version::Http11,
        fields: Seq::empty(),
    };
    let typed = match mime {
        Some(mime) => if crate::foreign::valid_header_value(crate::text::ascii(mime)) {
            plain.with_header("content-type"@, crate::text::ascii(mime))
        } else {
            plain
        },
        None => plain,
    };
    if readable {
        typed
    } else {
        ResponseView { status: 500, ..typed }.with_header(
            "content-length"@,
            crate::text::ascii("0"@),
        )
    }
}

/// Writes the head of the answer with a file of the given MIME type.
pub fn file_response(mime: Option<String>, readable: bool) -> (resp: Response)
    requires
        mime matches Some(mime) ==> vstd::utf8::is_ascii_chars(mime@),
    ensures
        resp@ == file_head(
            match mime {
                Some(mime) => Some(mime@),
                None => None,
            },
            readable,
        ),
{
    let mut resp = Response::new();
    if let Some(mime) = mime {
        if let Some(content_type) = header_value(ascii_bytes(mime.as_str()).as_slice()) {
            let done = resp.set_content_type(content_type.as_slice());
            proof {
                assert(done);
            }
        }
    }
    if !readable {
        resp.status = 500;
        let done = resp.set_no_body();
        proof {
            assert(done);
        }
    }

    resp
}

/// Writes the head of the answer with the file at the given path.
pub fn file_response_for(path: &str, readable: bool) -> (resp: Response)
    ensures
        resp@ == file_head(crate::foreign::mime_type(path@), readable),
{
    file_response(guess_mime_type(path), readable)
}

/// Whether the part of a path from `i` up to `j` is one of its components.
pub open spec fn is_component(path: Seq<char>, i: int, j: int) -> bool {
    &&& 0 <= i <= j <= path.len()
    &&& i == 0 || path[i - 1] == '/'
    &&& j == path.len() || path[j] == '/'
}

/// A path which is served never leads out of the root directory: it is relative, and none of its
/// components is the parent directory.
pub proof fn law_served_path_stays_in_root(path: Seq<char>, hide: bool)
    ensures
        looked_up(path, hide) matches LookupView::Serve(rest) ==> {
            &&& rest.len() > 0 ==> rest[0] != '/'
            &&& forall|i: int, j: int| #[trigger]
                is_component(rest, i, j) ==> rest.subrange(i, j) != seq!['.', '.']
        },
{
    let rest = without_slashes(path);
    lemma_without_slashes(path);
    if looked_up(path, hide) is Serve {
        assert forall|i: int, j: int| #[trigger] is_component(rest, i, j) implies rest.subrange(
            i,
            j,
        ) != seq!['.', '.'] by {
            let part = rest.subrange(i, j);
            if part == seq!['.', '.'] {
                assert(part.len() == 2);
                assert(part[0] == rest[i] && part[1] == rest[i + 1]);
                if j < rest.len() {
                    assert(rest.subrange(i, i + 3) =~= seq!['.', '.', '/']);
                    assert(occurs_at(rest, seq!['.', '.', '/'], i));
                } else {
                    assert(ends_in_parent(rest));
                }
            }
        }
    }
}

/// If hidden files are hidden, no component of a path which is served starts with a dot.
pub proof fn law_hidden_files_are_hidden(path: Seq<char>)
    ensures
        looked_up(path, true) matches LookupView::Serve(rest) ==> forall|i: int|
            0 <= i < rest.len() && (i == 0 || rest[i - 1] == '/') ==> (#[trigger] rest[i]) != '.',
{
    let rest = without_slashes(path);
    if looked_up(path, true) is Serve {
        assert forall|i: int| 0 <= i < rest.len() && (i == 0 || rest[i - 1] == '/') implies (
        #[trigger] rest[i]) != '.' by {
            if rest[i] == '.' {
                if i == 0 {
                    assert(rest.subrange(0, 1) =~= seq!['.']);
                    assert(occurs_at(rest, seq!['.'], 0));
                } else {
                    assert(rest.subrange(i - 1, i + 1) =~= seq!['/', '.']);
                    assert(occurs_at(rest, seq!['/', '.'], i - 1));
                }
            }
        }
    }
}

/// What is served is the path itself without the slashes at its begin. It is served unless a part of
/// it leads to a parent directory or, where hidden files are hidden, a component starts with a dot.
/// What leads to a parent directory is forbidden, and only that is.
#[verifier::spinoff_prover]
#[verifier::rlimit(30)]
pub proof fn law_other_paths_are_served(path: Seq<char>, hide: bool, n: int)
    requires
        0 <= n <= path.len(),
        forall|i: int| 0 <= i < n ==> #[trigger] path[i] == '/',
        n < path.len() ==> path[n] != '/',
    ensures
        ({
            let rest = path.skip(n);
            let last = rest.len() - 1;
            let parent = (exists|i: int|
                0 <= i && i + 2 < rest.len() && #[trigger] rest[i] == '.' && rest[i + 1] == '.'
                    && rest[i + 2] == '/');
            let hidden = (exists|i: int|
                0 <= i < rest.len() && #[trigger] rest[i] == '.' && (i == 0 || rest[i - 1] == '/'));
            let ends = last >= 1 && rest[last] == '.' && rest[last - 1] == '.' && (last == 1
                || rest[last - 2] == '/');
            &&& parent ==> looked_up(path, hide) is Forbidden
            &&& !parent && hide && hidden ==> looked_up(path, hide) is Hidden
            &&& !parent && !hide && ends ==> looked_up(path, hide) is Forbidden
            &&& !parent && !(hide && hidden) && !ends ==> looked_up(path, hide)
                == LookupView::Serve(rest)
        }),
{
    let rest = path.skip(n);
    lemma_slashes_are_skipped(path, n);
    if exists|i: int|
        0 <= i && i + 2 < rest.len() && #[trigger] rest[i] == '.' && rest[i + 1] == '.' && rest[i
            + 2] == '/' {
        let i = choose|i: int|
            0 <= i && i + 2 < rest.len() && #[trigger] rest[i] == '.' && rest[i + 1] == '.'
                && rest[i + 2] == '/';
        assert(rest.subrange(i, i + 3) =~= seq!['.', '.', '/']);
        assert(occurs_at(rest, seq!['.', '.', '/'], i));
    } else if contains(rest, seq!['.', '.', '/']) {
        let i = choose|i: int| occurs_at(rest, seq!['.', '.', '/'], i);
        let part = rest.subrange(i, i + 3);
        assert(part[0] == rest[i] && part[1] == rest[i + 1] && part[2] == rest[i + 2]);
        assert(rest[i] == '.');
    }
    let dotted = occurs_at(rest, seq!['.'], 0) || contains(rest, seq!['/', '.']);
    if exists|i: int|
        0 <= i < rest.len() && #[trigger] rest[i] == '.' && (i == 0 || rest[i - 1] == '/') {
        let i = choose|i: int|
            0 <= i < rest.len() && #[trigger] rest[i] == '.' && (i == 0 || rest[i - 1] == '/');
        if i == 0 {
            assert(rest.subrange(0, 1) =~= seq!['.']);
        } else {
            assert(rest.subrange(i - 1, i + 1) =~= seq!['/', '.']);
            assert(occurs_at(rest, seq!['/', '.'], i - 1));
        }
        assert(dotted);
    } else if dotted {
        if occurs_at(rest, seq!['.'], 0) {
            assert(rest.subrange(0, 1)[0] == rest[0]);
            assert(rest[0] == '.');
        } else {
            let i = choose|i: int| occurs_at(rest, seq!['/', '.'], i);
            let part = rest.subrange(i, i + 2);
            assert(part[0] == rest[i] && part[1] == rest[i + 1]);
            assert(rest[i + 1] == '.');
        }
    }
}

/// The slashes at the begin of a path are left out.
proof fn lemma_slashes_are_skipped(path: Seq<char>, n: int)
    requires
        0 <= n <= path.len(),
        forall|i: int| 0 <= i < n ==> #[trigger] path[i] == '/',
        n < path.len() ==> path[n] != '/',
    ensures
        without_slashes(path) == path.skip(n),
    decreases n,
{
    if n == 0 {
        assert(path.skip(0) =~= path);
    } else {
        assert(path[0] == '/');
        let rest = path.skip(1);
        assert forall|i: int| 0 <= i < n - 1 implies #[trigger] rest[i] == '/' by {
            assert(rest[i] == path[i + 1]);
        }
        lemma_slashes_are_skipped(rest, n - 1);
        assert(rest.skip(n - 1) =~= path.skip(n));
    }
}

/// A file which can be read is answered with success and its type, if the type is known. One which
/// can not be read is answered with an error and no body. Nothing else is said about either.
pub proof fn law_file_head_says_the_type(mime: Option<Seq<char>>, readable: bool, other: Seq<u8>)
    requires
        mime matches Some(mime) ==> crate::foreign::valid_header_value(crate::text::ascii(mime)),
        other != crate::text::ascii("content-type"@),
        other != crate::text::ascii("content-length"@),
    ensures
        ({
            let head = file_head(mime, readable);
            let types = crate::foreign::field_values(
                head.fields,
                crate::text::ascii("content-type"@),
            );
            let lengths = crate::foreign::field_values(
                head.fields,
                crate::text::ascii("content-length"@),
            );
            &&& head.status == if readable {
                200u16
            } else {
                500
            }
            &&& match mime {
                Some(mime) => types.len() == 1 && types[0] == crate::text::ascii(mime),
                None => types.len() == 0,
            }
            &&& if readable {
                lengths.len() == 0
            } else {
                lengths.len() == 1 && lengths[0] == crate::text::ascii("0"@)
            }
            &&& crate::foreign::field_values(head.fields, other).len() == 0
        }),
{
    let kind = crate::text::ascii("content-type"@);
    let length = crate::text::ascii("content-length"@);
    let zero = crate::text::ascii("0"@);
    reveal_strlit("content-type");
    reveal_strlit("content-length");
    assert(kind.len() != length.len());
    let none = Seq::<crate::foreign::Field>::empty();
    let typed = match mime {
        Some(mime) => crate::foreign::with_inserted(none, kind, crate::text::ascii(mime)),
        None => none,
    };
    if let Some(mime) = mime {
        let value = crate::text::ascii(mime);
        crate::response::law_insert_then_get(none, kind, value, kind);
        crate::response::law_insert_then_get(none, kind, value, length);
        crate::response::law_insert_then_get(none, kind, value, other);
    }
    crate::response::law_insert_then_get(typed, length, zero, kind);
    crate::response::law_insert_then_get(typed, length, zero, length);
    crate::response::law_insert_then_get(typed, length, zero, other);
}

proof fn lemma_without_slashes(path: Seq<char>)
    ensures
        ({
            let rest = without_slashes(path);
            rest.len() > 0 ==> rest[0] != '/'
        }),
    decreases path.len(),
{
    if path.len() > 0 && path[0] == '/' {
        lemma_without_slashes(path.skip(1));
    }
}

/// In a directory the index files are tried in order, each of them once, until there is none left. A
/// file is tried once.
pub proof fn law_each_file_is_tried_once(count: int, tried: usize, i: usize)
    requires
        count >= 0,
    ensures
        attempt_after(count, true, tried) == Attempt::Index(i) <==> tried == i && i < count,
        attempt_after(count, true, tried) is NotFound <==> tried >= count,
        attempt_after(count, false, tried) is File <==> tried == 0,
        attempt_after(count, false, tried) is NotFound <==> tried > 0,
{
}

/// What leads out of the root directory, or what may not be opened, is forbidden. What is hidden looks
/// as if it did not exist, what does not exist is no failure to open it, and everything else is the
/// fault of the server.
pub proof fn law_refusals_have_a_status(lookup: LookupView, kind: ErrorKind)
    ensures
        refusal_status(lookup) == 403 <==> lookup is Forbidden,
        refusal_status(lookup) == 404 <==> !(lookup is Forbidden),
        open_refusal_status(kind) is None <==> kind is NotFound,
        open_refusal_status(kind) == Some(403u16) <==> kind is PermissionDenied,
        open_refusal_status(kind) matches Some(status) ==> status == 403 || status == 500,
{
}

} // verus!
