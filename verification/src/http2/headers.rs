//! How requests and responses are stored in header lists and header blocks.

use vstd::prelude::*;

use super::error::{ErrorCode, H2Error, H2Result};
use super::frame::{
    ContinuationFrame, ContinuationFrameView, Frame, FrameView, HeadersFrame, HeadersFrameView,
};
use crate::foreign::{header_lines, header_name, header_value, is_valid_method, uri_path, HeaderList};
use crate::message::{Request, RequestView, Version};
use crate::number::to_decimal;
use crate::parse::bytes_equal;
use crate::response::{Response, ResponseView};
use crate::text::ascii_bytes;

verus! {

/// The biggest part of a header block which is put in a single frame.
pub const BLOCK_PART_MAX: usize = 16_384;

/// Whether a name belongs to a pseudo header.
pub open spec fn is_pseudo(name: Seq<u8>) -> bool {
    name.len() > 0 && name[0] == 58
}

/// How many pseudo headers there are in front of the first regular header.
pub open spec fn pseudo_count(list: HeaderList) -> int
    decreases list.len(),
{
    if list.len() == 0 || !is_pseudo(list[0].0) {
        0
    } else {
        1 + pseudo_count(list.skip(1))
    }
}

/// Whether a pseudo header is known and its value is acceptable.
pub open spec fn pseudo_ok(line: (Seq<u8>, Seq<u8>)) -> bool {
    ||| line.0 == crate::text::ascii(":method"@) && crate::foreign::valid_method(line.1)
    ||| line.0 == crate::text::ascii(":scheme"@)
    ||| line.0 == crate::text::ascii(":path"@) && crate::foreign::path_of_uri(line.1) is Some
    ||| line.0 == crate::text::ascii(":authority"@)
}

/// Whether all pseudo headers are acceptable and none of them comes twice.
pub open spec fn all_pseudo_ok(list: HeaderList) -> bool {
    &&& forall|i: int| 0 <= i < list.len() ==> pseudo_ok(#[trigger] list[i])
    &&& forall|i: int, j: int|
        0 <= i < j < list.len() ==> (#[trigger] list[i]).0 != (#[trigger] list[j]).0
}

/// The value of the header with the given name.
pub open spec fn value_of(list: HeaderList, name: Seq<u8>) -> Option<Seq<u8>>
    decreases list.len(),
{
    if list.len() == 0 {
        None
    } else if list.last().0 == name {
        Some(list.last().1)
    } else {
        value_of(list.drop_last(), name)
    }
}

/// Whether the pseudo headers which a request needs are there.
pub open spec fn is_complete(pseudo: HeaderList) -> bool {
    let has_scheme = value_of(pseudo, crate::text::ascii(":scheme"@)) is Some;
    let has_path = value_of(pseudo, crate::text::ascii(":path"@)) is Some;
    let has_authority = value_of(pseudo, crate::text::ascii(":authority"@)) is Some;
    match value_of(pseudo, crate::text::ascii(":method"@)) {
        None => false,
        Some(method) => if method == crate::text::ascii("CONNECT"@) {
            !has_scheme && !has_path && has_authority
        } else {
            has_scheme && has_path
        },
    }
}

/// Whether all regular headers are acceptable. The name of a pseudo header is no regular one.
pub open spec fn all_regular_ok(list: HeaderList) -> bool {
    forall|i: int|
        0 <= i < list.len() ==> {
            &&& crate::foreign::valid_header_name((#[trigger] list[i]).0)
            &&& crate::foreign::valid_header_value(list[i].1)
        }
}

/// The fields which a list of regular headers makes up.
pub open spec fn collected(list: HeaderList) -> Seq<crate::foreign::Field>
    decreases list.len(),
{
    if list.len() == 0 {
        Seq::empty()
    } else {
        crate::foreign::with_appended(
            collected(list.drop_last()),
            crate::foreign::lower_case(list.last().0),
            list.last().1,
        )
    }
}

/// The request which a header list stands for. The pseudo headers are only checked for
/// completeness if there is a regular header behind them.
pub open spec fn request_of(list: HeaderList) -> H2Result<RequestView> {
    let pseudo = list.take(pseudo_count(list));
    let regular = list.skip(pseudo_count(list));
    if all_pseudo_ok(pseudo) && (regular.len() > 0 ==> is_complete(pseudo)) && all_regular_ok(
        regular,
    ) {
        Ok(
            RequestView {
                method: match value_of(pseudo, crate::text::ascii(":method"@)) {
                    Some(method) => method,
                    None => crate::text::ascii("GET"@),
                },
                target: match value_of(pseudo, crate::text::ascii(":path"@)) {
                    Some(path) => path,
                    None => crate::text::ascii("/"@),
                },
                version: Version::Http2,
                fields: collected(regular),
            },
        )
    } else {
        Err(H2Error::Stream(ErrorCode::ProtocolError))
    }
}

/// The error with which an unacceptable header list is refused.
pub open spec fn bad_list<T>() -> H2Result<T> {
    Err(H2Error::Stream(ErrorCode::ProtocolError))
}

/// Tells whether a name belongs to a pseudo header.
fn starts_pseudo(name: &[u8]) -> (ret: bool)
    ensures
        ret == is_pseudo(name@),
{
    name.len() > 0 && name[0] == 58
}

/// The pseudo headers which were read so far.
struct Pseudo {
    method: Option<Vec<u8>>,
    scheme: bool,
    path: Option<Vec<u8>>,
    authority: bool,
}

impl Pseudo {
    /// The fields stand for the given pseudo headers, all of which are acceptable.
    spec fn holds(&self, list: HeaderList) -> bool {
        &&& all_pseudo_ok(list)
        &&& value_of(list, crate::text::ascii(":method"@)) == match self.method {
            Some(method) => Some(method@),
            None => None,
        }
        &&& self.scheme == (value_of(list, crate::text::ascii(":scheme"@)) is Some)
        &&& value_of(list, crate::text::ascii(":path"@)) == match self.path {
            Some(path) => Some(path@),
            None => None,
        }
        &&& self.authority == (value_of(list, crate::text::ascii(":authority"@)) is Some)
    }

    /// Takes in one more pseudo header. Returns false if it is not acceptable.
    fn add(&mut self, name: &[u8], value: &[u8], Ghost(list): Ghost<HeaderList>) -> (ret: bool)
        requires
            old(self).holds(list),
        ensures
            ret ==> final(self).holds(list.push((name@, value@))),
            !ret ==> !all_pseudo_ok(list.push((name@, value@))),
    {
        let ghost next = list.push((name@, value@));
        proof {
            lemma_names_differ();
            assert(next.drop_last() =~= list);
            assert(next.last() == (name@, value@));
            lemma_value_of(list, name@);
            lemma_push_pseudo(list, (name@, value@));
            reveal_strlit(":method");
            reveal_strlit(":scheme");
            reveal_strlit(":path");
            reveal_strlit(":authority");
        }
        if bytes_equal(name, ascii_bytes(":method").as_slice()) {
            if self.method.is_some() || !is_valid_method(value) {
                return false;
            }
            self.method = Some(vstd::slice::slice_to_vec(value));
            true
        } else if bytes_equal(name, ascii_bytes(":scheme").as_slice()) {
            if self.scheme {
                return false;
            }
            self.scheme = true;
            true
        } else if bytes_equal(name, ascii_bytes(":path").as_slice()) {
            if self.path.is_some() || uri_path(value).is_none() {
                return false;
            }
            self.path = Some(vstd::slice::slice_to_vec(value));
            true
        } else if bytes_equal(name, ascii_bytes(":authority").as_slice()) {
            if self.authority {
                return false;
            }
            self.authority = true;
            true
        } else {
            false
        }
    }

    /// Tells whether the pseudo headers which a request needs are there.
    fn is_complete(&self, Ghost(list): Ghost<HeaderList>) -> (ret: bool)
        requires
            self.holds(list),
        ensures
            ret == is_complete(list),
    {
        proof {
            reveal_strlit("CONNECT");
        }
        match &self.method {
            None => false,
            Some(method) => if bytes_equal(method.as_slice(), ascii_bytes("CONNECT").as_slice()) {
                !self.scheme && self.path.is_none() && self.authority
            } else {
                self.scheme && self.path.is_some()
            },
        }
    }
}

/// The names of the pseudo headers are different from each other.
proof fn lemma_names_differ()
    ensures
        ({
            let method = crate::text::ascii(":method"@);
            let scheme = crate::text::ascii(":scheme"@);
            let path = crate::text::ascii(":path"@);
            let authority = crate::text::ascii(":authority"@);
            &&& method != scheme && method != path && method != authority
            &&& scheme != path && scheme != authority && path != authority
            &&& is_pseudo(method) && is_pseudo(scheme) && is_pseudo(path) && is_pseudo(authority)
        }),
{
    reveal_strlit(":method");
    reveal_strlit(":scheme");
    reveal_strlit(":path");
    reveal_strlit(":authority");
    assert(crate::text::ascii(":method"@)[1] == 109);
    assert(crate::text::ascii(":scheme"@)[1] == 115);
    assert(crate::text::ascii(":path"@)[1] == 112);
    assert(crate::text::ascii(":authority"@)[1] == 97);
}

/// There is a value exactly if there is a header with the name.
proof fn lemma_value_of(list: HeaderList, name: Seq<u8>)
    ensures
        value_of(list, name) is Some <==> exists|i: int|
            0 <= i < list.len() && (#[trigger] list[i]).0 == name,
    decreases list.len(),
{
    if list.len() > 0 {
        lemma_value_of(list.drop_last(), name);
        if list.last().0 == name {
            assert(list[list.len() - 1].0 == name);
        } else if value_of(list.drop_last(), name) is Some {
            let i = choose|i: int|
                0 <= i < list.drop_last().len() && (#[trigger] list.drop_last()[i]).0 == name;
            assert(list[i].0 == name);
        } else {
            assert forall|i: int| 0 <= i < list.len() implies (#[trigger] list[i]).0 != name by {
                if i < list.len() - 1 {
                    assert(list.drop_last()[i].0 != name);
                }
            }
        }
    }
}

/// When one more pseudo header is acceptable.
proof fn lemma_push_pseudo(list: HeaderList, line: (Seq<u8>, Seq<u8>))
    requires
        all_pseudo_ok(list),
    ensures
        all_pseudo_ok(list.push(line)) <==> pseudo_ok(line) && value_of(list, line.0) is None,
{
    let next = list.push(line);
    lemma_value_of(list, line.0);
    if value_of(list, line.0) is Some {
        let i = choose|i: int| 0 <= i < list.len() && (#[trigger] list[i]).0 == line.0;
        assert(next[i].0 == next[list.len() as int].0);
    } else if pseudo_ok(line) {
        assert forall|i: int, j: int| 0 <= i < j < next.len() implies (#[trigger] next[i]).0 != (
        #[trigger] next[j]).0 by {
            assert(next[i] == list[i]);
            if j < list.len() {
                assert(next[j] == list[j]);
            }
        }
    } else {
        assert(next[list.len() as int] == line);
    }
}

/// The number of pseudo headers is where the first regular header is.
proof fn lemma_pseudo_count(list: HeaderList, n: int)
    requires
        0 <= n <= list.len(),
        forall|i: int| 0 <= i < n ==> is_pseudo((#[trigger] list[i]).0),
        n < list.len() ==> !is_pseudo(list[n].0),
    ensures
        pseudo_count(list) == n,
    decreases n,
{
    if n > 0 {
        assert(is_pseudo(list[0].0));
        assert forall|i: int| 0 <= i < n - 1 implies is_pseudo((#[trigger] list.skip(1)[i]).0) by {
            assert(list.skip(1)[i] == list[i + 1]);
        }
        lemma_pseudo_count(list.skip(1), n - 1);
    }
}

/// The number of pseudo headers is in range, whatever is in the list.
proof fn lemma_pseudo_count_bounds(list: HeaderList)
    ensures
        0 <= pseudo_count(list) <= list.len(),
        forall|i: int| 0 <= i < pseudo_count(list) ==> is_pseudo((#[trigger] list[i]).0),
        pseudo_count(list) < list.len() ==> !is_pseudo(list[pseudo_count(list)].0),
    decreases list.len(),
{
    if list.len() > 0 && is_pseudo(list[0].0) {
        lemma_pseudo_count_bounds(list.skip(1));
        assert forall|i: int| 0 <= i < pseudo_count(list) implies is_pseudo(
            (#[trigger] list[i]).0,
        ) by {
            if i > 0 {
                assert(list.skip(1)[i - 1] == list[i]);
            }
        }
    }
}

/// The number of fields is at most the number of headers.
proof fn lemma_collected_len(list: HeaderList)
    ensures
        collected(list).len() <= list.len(),
    decreases list.len(),
{
    if list.len() > 0 {
        lemma_collected_len(list.drop_last());
    }
}

/// Builds a request out of a header list. Returns `None` if there are more headers than a request
/// can hold, which does not happen for at most [`crate::foreign::FIELDS_GUARANTEED`] headers.
pub fn request_from_headers(list: &Vec<(Vec<u8>, Vec<u8>)>) -> (ret: Option<H2Result<Request>>)
    ensures
        ret matches Some(ret) ==> super::frame::result_view(ret) == request_of(
            crate::foreign::pair_views(list@),
        ),
        list@.len() <= crate::foreign::FIELDS_GUARANTEED ==> ret is Some,
{
    let ghost all = crate::foreign::pair_views(list@);
    let mut req = Request::new(Version::Http2);
    // We must take note if we got all relevant pseudo headers.
    let mut pseudo = Pseudo { method: None, scheme: false, path: None, authority: false };
    let mut i: usize = 0;
    proof {
        assert(all.take(0) =~= Seq::empty());
    }
    // First, read out all pseudo headers.
    while i < list.len() && starts_pseudo(list[i].0.as_slice())
        invariant
            i <= list@.len(),
            all == crate::foreign::pair_views(list@),
            pseudo.holds(all.take(i as int)),
            forall|j: int| 0 <= j < i ==> is_pseudo((#[trigger] all[j]).0),
            req@ == (RequestView {
                method: crate::text::ascii("GET"@),
                target: crate::text::ascii("/"@),
                version: Version::Http2,
                fields: Seq::empty(),
            }),
        decreases list@.len() - i,
    {
        proof {
            assert(all.take(i + 1) =~= all.take(i as int).push(all[i as int]));
            assert(all[i as int].0 == list@[i as int].0@);
        }
        if !pseudo.add(
            list[i].0.as_slice(),
            list[i].1.as_slice(),
            Ghost(all.take(i as int)),
        ) {
            proof {
                lemma_bad_pseudo(all, i as int);
            }
            return Some(Err(H2Error::Stream(ErrorCode::ProtocolError)));
        }
        i = i + 1;
    }
    let ghost n = i as int;
    proof {
        if n < all.len() {
            assert(all[n].0 == list@[n].0@);
        }
        lemma_pseudo_count(all, n);
    }
    if i < list.len() && !pseudo.is_complete(Ghost(all.take(n))) {
        return Some(Err(H2Error::Stream(ErrorCode::ProtocolError)));
    }
    // Read all the regular headers.
    let ghost regular = all.skip(n);
    proof {
        assert(regular.take(0) =~= Seq::empty());
    }
    while i < list.len()
        invariant
            n <= i <= list@.len(),
            n == pseudo_count(all),
            0 <= n,
            all == crate::foreign::pair_views(list@),
            regular == all.skip(n),
            all_regular_ok(regular.take(i - n)),
            req@ == (RequestView {
                method: crate::text::ascii("GET"@),
                target: crate::text::ascii("/"@),
                version: Version::Http2,
                fields: collected(regular.take(i - n)),
            }),
        decreases list@.len() - i,
    {
        let name: &[u8] = list[i].0.as_slice();
        let value: &[u8] = list[i].1.as_slice();
        proof {
            assert(regular.take(i - n + 1) =~= regular.take(i - n).push(all[i as int]));
            assert(regular.take(i - n + 1).drop_last() =~= regular.take(i - n));
            assert(all[i as int] == (name@, value@));
            assert(regular[i - n] == all[i as int]);
            lemma_collected_len(regular.take(i - n));
        }
        if starts_pseudo(name) {
            proof {
                assert(!crate::foreign::is_header_name_char(name@[0]));
            }
            return Some(Err(H2Error::Stream(ErrorCode::ProtocolError)));
        }
        if header_name(name).is_none() || header_value(value).is_none() {
            return Some(Err(H2Error::Stream(ErrorCode::ProtocolError)));
        }
        if !req.append_header(name, value) {
            return None;
        }
        i = i + 1;
    }
    proof {
        assert(regular.take(i - n) =~= regular);
    }
    let Pseudo { method, scheme: _, path, authority: _ } = pseudo;
    if let Some(method) = method {
        req.method = method;
    }
    if let Some(path) = path {
        req.target = path;
    }

    Some(Ok(req))
}

/// A pseudo header which can not be added makes the whole list unacceptable.
proof fn lemma_bad_pseudo(list: HeaderList, i: int)
    requires
        0 <= i < list.len(),
        forall|j: int| 0 <= j <= i ==> is_pseudo((#[trigger] list[j]).0),
        !all_pseudo_ok(list.take(i + 1)),
    ensures
        !all_pseudo_ok(list.take(pseudo_count(list))),
{
    lemma_pseudo_count_bounds(list);
    let n = pseudo_count(list);
    let whole = list.take(n);
    let part = list.take(i + 1);
    assert(n > i);
    if all_pseudo_ok(whole) {
        assert forall|j: int| 0 <= j < part.len() implies pseudo_ok(#[trigger] part[j]) by {
            assert(part[j] == whole[j]);
        }
        assert forall|j: int, k: int| 0 <= j < k < part.len() implies (#[trigger] part[j]).0 != (
        #[trigger] part[k]).0 by {
            assert(part[j] == whole[j]);
            assert(part[k] == whole[k]);
        }
    }
}

/// A header list with acceptable and complete pseudo headers in front of valid regular headers is
/// accepted, and gives the request that it describes.
pub proof fn law_ordinary_request(pseudo: HeaderList, regular: HeaderList)
    requires
        all_pseudo_ok(pseudo),
        is_complete(pseudo),
        all_regular_ok(regular),
    ensures
        request_of(pseudo + regular) == Ok::<RequestView, H2Error>(
            RequestView {
                method: value_of(pseudo, crate::text::ascii(":method"@))->Some_0,
                target: match value_of(pseudo, crate::text::ascii(":path"@)) {
                    Some(path) => path,
                    None => crate::text::ascii("/"@),
                },
                version: Version::Http2,
                fields: collected(regular),
            },
        ),
{
    let list = pseudo + regular;
    lemma_names_differ();
    assert forall|i: int| 0 <= i < pseudo.len() implies is_pseudo((#[trigger] list[i]).0) by {
        assert(pseudo_ok(pseudo[i]));
    }
    if regular.len() > 0 {
        assert(list[pseudo.len() as int] == regular[0]);
        let name = regular[0].0;
        assert(crate::foreign::is_header_name_char(name[0]));
    }
    lemma_pseudo_count(list, pseudo.len() as int);
    assert(list.take(pseudo.len() as int) =~= pseudo);
    assert(list.skip(pseudo.len() as int) =~= regular);
}

/// A pseudo header behind a regular header makes a header list unacceptable.
pub proof fn law_pseudo_behind_regular(list: HeaderList, i: int, j: int)
    requires
        0 <= i < j < list.len(),
        !is_pseudo(list[i].0),
        is_pseudo(list[j].0),
    ensures
        request_of(list) == bad_list::<RequestView>(),
{
    lemma_pseudo_count_bounds(list);
    let n = pseudo_count(list);
    if n > i {
        assert(is_pseudo(list[i].0));
    }
    let regular = list.skip(n);
    assert(regular[j - n] == list[j]);
    assert(!crate::foreign::is_header_name_char(list[j].0[0]));
}

/// The values of all regular headers of a list which have the given name in lower case, in order.
pub open spec fn named_values(list: HeaderList, name: Seq<u8>) -> Seq<Seq<u8>>
    decreases list.len(),
{
    if list.len() == 0 {
        Seq::empty()
    } else {
        let (key, value) = list.last();
        let front = named_values(list.drop_last(), name);
        if (key.len() == 0 || key[0] != 58) && crate::foreign::lower_case(key) == name {
            front.push(value)
        } else {
            front
        }
    }
}

/// The values in two lists behind each other are those of the first one and those of the second one.
pub proof fn lemma_named_values_join(one: HeaderList, other: HeaderList, name: Seq<u8>)
    ensures
        named_values(one + other, name) == named_values(one, name) + named_values(other, name),
    decreases other.len(),
{
    if other.len() == 0 {
        assert(one + other =~= one);
        assert(named_values(one, name) + named_values(other, name) =~= named_values(one, name));
    } else {
        lemma_named_values_join(one, other.drop_last(), name);
        assert((one + other).drop_last() =~= one + other.drop_last());
        assert((one + other).last() == other.last());
        assert(named_values(one + other, name) =~= named_values(one, name) + named_values(
            other,
            name,
        ));
    }
}

proof fn lemma_pseudo_has_no_value(list: HeaderList, name: Seq<u8>)
    requires
        forall|i: int| 0 <= i < list.len() ==> is_pseudo((#[trigger] list[i]).0),
    ensures
        named_values(list, name) == Seq::<Seq<u8>>::empty(),
    decreases list.len(),
{
    if list.len() > 0 {
        assert(is_pseudo(list[list.len() - 1].0));
        assert forall|i: int| 0 <= i < list.drop_last().len() implies is_pseudo(
            (#[trigger] list.drop_last()[i]).0,
        ) by {
            assert(is_pseudo(list[i].0));
        }
        lemma_pseudo_has_no_value(list.drop_last(), name);
    }
}

proof fn lemma_collected_values(list: HeaderList, name: Seq<u8>)
    requires
        all_regular_ok(list),
    ensures
        crate::foreign::field_values(collected(list), name) == named_values(list, name),
    decreases list.len(),
{
    if list.len() > 0 {
        let front = list.drop_last();
        assert(crate::foreign::valid_header_name(list[list.len() - 1].0));
        assert(crate::foreign::is_header_name_char(list.last().0[0]));
        assert forall|i: int| 0 <= i < front.len() implies {
            &&& crate::foreign::valid_header_name((#[trigger] front[i]).0)
            &&& crate::foreign::valid_header_value(front[i].1)
        } by {
            assert(front[i] == list[i]);
        }
        lemma_collected_values(front, name);
        crate::message::law_append_then_get(
            collected(front),
            crate::foreign::lower_case(list.last().0),
            list.last().1,
            name,
        );
    }
}

/// The values of each name in a request are the values of all regular headers of the list with
/// that name in lower case, in order.
pub proof fn law_all_headers_are_kept(list: HeaderList, name: Seq<u8>)
    ensures
        request_of(list) matches Ok(req) ==> crate::foreign::field_values(req.fields, name)
            == named_values(list, name),
{
    if request_of(list) is Ok {
        lemma_pseudo_count_bounds(list);
        let n = pseudo_count(list);
        let pseudo = list.take(n);
        let regular = list.skip(n);
        assert(list =~= pseudo + regular);
        lemma_named_values_join(pseudo, regular, name);
        lemma_pseudo_has_no_value(pseudo, name);
        lemma_collected_values(regular, name);
        assert(Seq::<Seq<u8>>::empty() + named_values(regular, name) =~= named_values(
            regular,
            name,
        ));
    }
}

/// Whether there is a header with exactly the given name.
pub open spec fn carries(list: HeaderList, name: Seq<char>) -> bool {
    exists|i: int| 0 <= i < list.len() && (#[trigger] list[i]).0 == crate::text::ascii(name)
}

/// A value is found in a list without duplicates.
proof fn lemma_only_value(list: HeaderList, i: int)
    requires
        0 <= i < list.len(),
        forall|i: int, j: int|
            0 <= i < j < list.len() ==> (#[trigger] list[i]).0 != (#[trigger] list[j]).0,
    ensures
        value_of(list, list[i].0) == Some(list[i].1),
    decreases list.len(),
{
    if i < list.len() - 1 {
        let front = list.drop_last();
        assert(list[i].0 != list[list.len() - 1].0);
        assert forall|j: int, k: int| 0 <= j < k < front.len() implies (#[trigger] front[j]).0 != (
        #[trigger] front[k]).0 by {
            assert(list[j].0 != list[k].0);
        }
        lemma_only_value(front, i);
    }
}

/// What the pseudo headers of an accepted list are: the method and the target of the request are
/// the values of `:method` and `:path`, or those of an ordinary request where these are missing.
#[verifier::spinoff_prover]
#[verifier::rlimit(30)]
pub proof fn law_pseudo_headers_are_read(list: HeaderList, i: int)
    requires
        0 <= i < list.len(),
    ensures
        request_of(list) matches Ok(req) ==> {
            &&& list[i].0 == crate::text::ascii(":method"@) ==> req.method == list[i].1
            &&& list[i].0 == crate::text::ascii(":path"@) ==> req.target == list[i].1
            &&& !carries(list, ":method"@) ==> req.method == crate::text::ascii("GET"@)
            &&& !carries(list, ":path"@) ==> req.target == crate::text::ascii("/"@)
            &&& req.version == Version::Http2
        },
{
    if let Ok(req) = request_of(list) {
        lemma_pseudo_count_bounds(list);
        lemma_names_differ();
        let n = pseudo_count(list);
        let pseudo = list.take(n);
        let regular = list.skip(n);
        if is_pseudo(list[i].0) {
            if i >= n {
                assert(regular[i - n] == list[i]);
                assert(crate::foreign::is_header_name_char(list[i].0[0]));
            }
            assert(pseudo[i] == list[i]);
            lemma_only_value(pseudo, i);
        }
        lemma_front_carries(list, n, ":method"@);
        lemma_front_carries(list, n, ":path"@);
    }
}

proof fn lemma_front_carries(list: HeaderList, n: int, name: Seq<char>)
    requires
        0 <= n <= list.len(),
        all_regular_ok(list.skip(n)),
        is_pseudo(crate::text::ascii(name)),
    ensures
        carries(list, name) <==> value_of(list.take(n), crate::text::ascii(name)) is Some,
{
    let key = crate::text::ascii(name);
    lemma_value_of(list.take(n), key);
    if carries(list, name) {
        let i = choose|i: int| 0 <= i < list.len() && (#[trigger] list[i]).0 == key;
        if i >= n {
            assert(list.skip(n)[i - n] == list[i]);
            assert(crate::foreign::is_header_name_char(key[0]));
        }
        assert(list.take(n)[i].0 == key);
    }
    if value_of(list.take(n), key) is Some {
        let i = choose|i: int| 0 <= i < n && (#[trigger] list.take(n)[i]).0 == key;
        assert(list[i].0 == key);
    }
}

/// Whether a header is one of the pseudo headers of a request, with a value which is a method or a
/// target where it has to be one.
pub open spec fn is_request_pseudo(line: (Seq<u8>, Seq<u8>)) -> bool {
    &&& line.0 == crate::text::ascii(":method"@) || line.0 == crate::text::ascii(":scheme"@)
        || line.0 == crate::text::ascii(":path"@) || line.0 == crate::text::ascii(":authority"@)
    &&& line.0 == crate::text::ascii(":method"@) ==> crate::foreign::valid_method(line.1)
    &&& line.0 == crate::text::ascii(":path"@) ==> crate::foreign::path_of_uri(line.1) is Some
}

/// Exactly these lists are accepted: the names which start with a colon come first and are those of
/// a request, each of them at most once, and all other names and values are valid. If there is a
/// regular header, then the method is there, and with it the scheme and the path or, for CONNECT,
/// the authority alone.
#[verifier::spinoff_prover]
#[verifier::rlimit(30)]
pub proof fn law_which_lists_are_accepted(list: HeaderList)
    ensures
        request_of(list) is Ok <==> {
            &&& forall|i: int, j: int|
                0 <= i < j < list.len() && is_pseudo((#[trigger] list[j]).0) ==> is_pseudo(
                    (#[trigger] list[i]).0,
                )
            &&& forall|i: int|
                0 <= i < list.len() ==> if is_pseudo((#[trigger] list[i]).0) {
                    is_request_pseudo(list[i])
                } else {
                    crate::foreign::valid_header_name(list[i].0)
                        && crate::foreign::valid_header_value(list[i].1)
                }
            &&& forall|i: int, j: int|
                0 <= i < j < list.len() && is_pseudo(list[j].0) ==> (#[trigger] list[i]).0 != (
                #[trigger] list[j]).0
            &&& list.len() > 0 && !is_pseudo(list.last().0) ==> {
                let connect = list.contains(
                    (crate::text::ascii(":method"@), crate::text::ascii("CONNECT"@)),
                );
                &&& carries(list, ":method"@)
                &&& carries(list, ":scheme"@) != connect
                &&& carries(list, ":path"@) != connect
                &&& connect ==> carries(list, ":authority"@)
            }
        },
        request_of(list) is Err ==> request_of(list) == bad_list::<RequestView>(),
{
    lemma_pseudo_count_bounds(list);
    lemma_names_differ();
    let n = pseudo_count(list);
    let pseudo = list.take(n);
    let regular = list.skip(n);
    if request_of(list) is Ok {
        assert forall|i: int| n <= i < list.len() implies !is_pseudo((#[trigger] list[i]).0) by {
            assert(regular[i - n] == list[i]);
            assert(crate::foreign::is_header_name_char(list[i].0[0]));
        }
        assert forall|i: int| 0 <= i < list.len() implies if is_pseudo((#[trigger] list[i]).0) {
            is_request_pseudo(list[i])
        } else {
            crate::foreign::valid_header_name(list[i].0) && crate::foreign::valid_header_value(
                list[i].1,
            )
        } by {
            if i < n {
                assert(pseudo_ok(pseudo[i]));
            } else {
                assert(regular[i - n] == list[i]);
            }
        }
        assert forall|i: int, j: int|
            0 <= i < j < list.len() && is_pseudo(list[j].0) implies (#[trigger] list[i]).0 != (
        #[trigger] list[j]).0 by {
            assert(j < n);
            assert(pseudo[i].0 != pseudo[j].0);
        }
        lemma_completeness(list, n);
    } else {
        let first = forall|i: int, j: int|
            0 <= i < j < list.len() && is_pseudo((#[trigger] list[j]).0) ==> is_pseudo(
                (#[trigger] list[i]).0,
            );
        let each = forall|i: int|
            0 <= i < list.len() ==> if is_pseudo((#[trigger] list[i]).0) {
                is_request_pseudo(list[i])
            } else {
                crate::foreign::valid_header_name(list[i].0) && crate::foreign::valid_header_value(
                    list[i].1,
                )
            };
        let once = forall|i: int, j: int|
            0 <= i < j < list.len() && is_pseudo(list[j].0) ==> (#[trigger] list[i]).0 != (
            #[trigger] list[j]).0;
        if first && each && once {
            assert forall|i: int| n <= i < list.len() implies !is_pseudo(
                (#[trigger] list[i]).0,
            ) by {
                if i > n {
                    assert(!is_pseudo(list[n].0));
                }
            }
            assert forall|i: int| 0 <= i < pseudo.len() implies pseudo_ok(
                #[trigger] pseudo[i],
            ) by {
                assert(pseudo[i] == list[i]);
            }
            assert forall|i: int, j: int| 0 <= i < j < pseudo.len() implies (#[trigger] pseudo[i]).0
                != (#[trigger] pseudo[j]).0 by {
                assert(list[i].0 != list[j].0);
            }
            assert forall|i: int| 0 <= i < regular.len() implies {
                &&& crate::foreign::valid_header_name((#[trigger] regular[i]).0)
                &&& crate::foreign::valid_header_value(regular[i].1)
            } by {
                assert(regular[i] == list[i + n]);
            }
            lemma_completeness(list, n);
        }
    }
}

/// What it means for the pseudo headers to be complete.
#[verifier::spinoff_prover]
#[verifier::rlimit(30)]
proof fn lemma_completeness(list: HeaderList, n: int)
    requires
        0 <= n <= list.len(),
        forall|i: int| 0 <= i < n ==> is_pseudo((#[trigger] list[i]).0),
        forall|i: int| n <= i < list.len() ==> !is_pseudo((#[trigger] list[i]).0),
        all_pseudo_ok(list.take(n)),
        all_regular_ok(list.skip(n)),
    ensures
        is_complete(list.take(n)) <==> {
            let connect = list.contains(
                (crate::text::ascii(":method"@), crate::text::ascii("CONNECT"@)),
            );
            &&& carries(list, ":method"@)
            &&& carries(list, ":scheme"@) != connect
            &&& carries(list, ":path"@) != connect
            &&& connect ==> carries(list, ":authority"@)
        },
{
    lemma_names_differ();
    let pseudo = list.take(n);
    lemma_front_carries(list, n, ":method"@);
    lemma_front_carries(list, n, ":scheme"@);
    lemma_front_carries(list, n, ":path"@);
    lemma_front_carries(list, n, ":authority"@);
    let key = crate::text::ascii(":method"@);
    let connect = (key, crate::text::ascii("CONNECT"@));
    if list.contains(connect) {
        let i = choose|i: int| 0 <= i < list.len() && list[i] == connect;
        assert(is_pseudo(list[i].0));
        assert(i < n);
        assert(pseudo[i] == list[i]);
        lemma_only_value(pseudo, i);
    }
    if value_of(pseudo, key) is Some {
        lemma_value_of(pseudo, key);
        let i = choose|i: int| 0 <= i < pseudo.len() && (#[trigger] pseudo[i]).0 == key;
        lemma_only_value(pseudo, i);
        assert(pseudo[i] == list[i]);
    }
}

impl ResponseView {
    /// The header list of the response.
    pub open spec fn header_list(self) -> HeaderList {
        seq![(crate::text::ascii(":status"@), crate::number::decimal_text(self.status as nat))]
            + crate::foreign::field_lines(self.fields)
    }
}

/// Lists the status and the headers of a response.
pub fn response_headers(resp: &Response) -> (list: Vec<(Vec<u8>, Vec<u8>)>)
    ensures
        crate::foreign::pair_views(list@) == resp@.header_list(),
{
    proof {
        reveal_strlit(":status");
    }
    // First create all pseudo headers.
    let mut list: Vec<(Vec<u8>, Vec<u8>)> = Vec::new();
    list.push((ascii_bytes(":status"), to_decimal(resp.status as u64)));
    let ghost first = list@;
    // Then add the response headers.
    let mut lines: Vec<(Vec<u8>, Vec<u8>)> = header_lines(&resp.headers);
    let ghost rest = lines@;
    list.append(&mut lines);
    proof {
        assert(list@ =~= first + rest);
        assert(crate::foreign::pair_views(list@) =~= crate::foreign::pair_views(first)
            + crate::foreign::pair_views(rest));
        assert(crate::foreign::pair_views(first) =~= seq![
            (crate::text::ascii(":status"@), crate::number::decimal_text(resp@.status as nat)),
        ]);
    }

    list
}

/// What a list of frames holds.
pub open spec fn frame_views(frames: Seq<Frame>) -> Seq<FrameView> {
    Seq::new(frames.len(), |i: int| frames[i]@)
}

/// The frames which carry on with a header block.
pub open spec fn continuation_frames(stream: u32, block: Seq<u8>) -> Seq<FrameView>
    decreases block.len(),
{
    if block.len() > BLOCK_PART_MAX {
        seq![
            ContinuationFrameView {
                stream,
                end_headers: false,
                data: block.take(BLOCK_PART_MAX as int),
            }.encoded(),
        ] + continuation_frames(stream, block.skip(BLOCK_PART_MAX as int))
    } else {
        seq![ContinuationFrameView { stream, end_headers: true, data: block }.encoded()]
    }
}

/// The frames which carry a header block.
pub open spec fn block_frames(stream: u32, end_stream: bool, block: Seq<u8>) -> Seq<FrameView> {
    let split = block.len() > BLOCK_PART_MAX;
    seq![
        HeadersFrameView {
            stream,
            end_stream,
            end_headers: !split,
            priority: None,
            data: if split {
                block.take(BLOCK_PART_MAX as int)
            } else {
                block
            },
        }.encoded(),
    ] + if split {
        continuation_frames(stream, block.skip(BLOCK_PART_MAX as int))
    } else {
        Seq::empty()
    }
}

/// Distributes a header block over a headers frame and as many continuation frames as it needs.
pub fn split_block(stream: u32, end_stream: bool, block: Vec<u8>) -> (frames: Vec<Frame>)
    ensures
        frame_views(frames@) == block_frames(stream, end_stream, block@),
{
    let ghost whole = block@;
    let mut frames: Vec<Frame> = Vec::new();
    let mut data: Vec<u8> = block;
    let mut split = data.len() > BLOCK_PART_MAX;
    let mut rest: Vec<u8> = if split {
        data.split_off(BLOCK_PART_MAX)
    } else {
        Vec::new()
    };
    proof {
        if split {
            assert(data@ =~= whole.take(BLOCK_PART_MAX as int));
            assert(rest@ =~= whole.skip(BLOCK_PART_MAX as int));
        }
    }
    let first = HeadersFrame { stream, end_stream, end_headers: !split, priority: None, data };
    let ghost first_view = first@.encoded();
    frames.push(Frame::from(first));
    proof {
        assert(frame_views(frames@) =~= seq![first_view]);
        assert(block_frames(stream, end_stream, whole) =~= frame_views(frames@) + if split {
            continuation_frames(stream, rest@)
        } else {
            Seq::empty()
        });
    }
    while split
        invariant
            block_frames(stream, end_stream, whole) == frame_views(frames@) + if split {
                continuation_frames(stream, rest@)
            } else {
                Seq::empty()
            },
        decreases rest@.len() + if split {
            1int
        } else {
            0
        },
    {
        let ghost before = frames@;
        let ghost left = rest@;
        split = rest.len() > BLOCK_PART_MAX;
        let next: Vec<u8> = if split {
            rest.split_off(BLOCK_PART_MAX)
        } else {
            Vec::new()
        };
        proof {
            if split {
                assert(rest@ =~= left.take(BLOCK_PART_MAX as int));
                assert(next@ =~= left.skip(BLOCK_PART_MAX as int));
            }
        }
        let part = ContinuationFrame { stream, end_headers: !split, data: rest };
        let ghost part_view = part@.encoded();
        frames.push(Frame::from(part));
        rest = next;
        proof {
            assert(frame_views(frames@) =~= frame_views(before).push(part_view));
            assert(block_frames(stream, end_stream, whole) =~= frame_views(frames@) + if split {
                continuation_frames(stream, rest@)
            } else {
                Seq::empty()
            });
        }
    }
    proof {
        assert(frame_views(frames@) + Seq::<FrameView>::empty() =~= frame_views(frames@));
    }

    frames
}

/// The payloads of some frames behind each other.
pub open spec fn payloads(frames: Seq<FrameView>) -> Seq<u8>
    decreases frames.len(),
{
    if frames.len() == 0 {
        Seq::empty()
    } else {
        frames[0].payload + payloads(frames.skip(1))
    }
}

proof fn lemma_continuation_frames(stream: u32, block: Seq<u8>)
    ensures
        ({
            let frames = continuation_frames(stream, block);
            &&& frames.len() > 0
            &&& payloads(frames) == block
            &&& forall|i: int|
                0 <= i < frames.len() ==> (#[trigger] frames[i]).payload.len() <= BLOCK_PART_MAX && (i
                    < frames.len() - 1 ==> frames[i].payload.len() == BLOCK_PART_MAX)
                    && frames[i].stream == stream && frames[i].frame_type
                    == super::frame::FrameType::Continuation && frames[i].flags.has(
                    super::frame::Flags::END_HEADERS,
                ) == (i == frames.len() - 1)
        }),
    decreases block.len(),
{
    let frames = continuation_frames(stream, block);
    super::frame::law_flags_hold_what_was_set(false, true);
    super::frame::law_flags_hold_what_was_set(false, false);
    if block.len() > BLOCK_PART_MAX {
        let rest = block.skip(BLOCK_PART_MAX as int);
        lemma_continuation_frames(stream, rest);
        assert(frames.skip(1) =~= continuation_frames(stream, rest));
        assert(payloads(frames) =~= block);
        assert forall|i: int| 0 <= i < frames.len() implies (#[trigger] frames[i]).payload.len()
            <= BLOCK_PART_MAX && (i < frames.len() - 1 ==> frames[i].payload.len()
            == BLOCK_PART_MAX) && frames[i].stream == stream && frames[i].frame_type
            == super::frame::FrameType::Continuation && frames[i].flags.has(
            super::frame::Flags::END_HEADERS,
        ) == (i == frames.len() - 1) by {
            if i > 0 {
                assert(frames[i] == continuation_frames(stream, rest)[i - 1]);
            }
        }
    } else {
        assert(frames.skip(1) =~= Seq::empty());
        assert(payloads(frames.skip(1)) =~= Seq::empty());
        assert(payloads(frames) =~= block);
    }
}

/// The frames of a header block hold exactly the block, in order. The first one is a headers frame
/// and the others are continuation frames. All but the last one are as big as every peer has to
/// accept, the last one is not bigger, and exactly the last one ends the block. The headers frame
/// ends the stream exactly if it is meant to.
pub proof fn law_block_is_kept(stream: u32, end_stream: bool, block: Seq<u8>)
    ensures
        ({
            let frames = block_frames(stream, end_stream, block);
            &&& frames.len() > 0
            &&& payloads(frames) == block
            &&& forall|i: int|
                0 <= i < frames.len() ==> {
                    &&& (#[trigger] frames[i]).payload.len() <= 0x4000
                    &&& i < frames.len() - 1 ==> frames[i].payload.len() == 0x4000
                    &&& frames[i].stream == stream
                    &&& frames[i].frame_type == if i == 0 {
                        super::frame::FrameType::Headers
                    } else {
                        super::frame::FrameType::Continuation
                    }
                    &&& frames[i].flags.has(super::frame::Flags::END_HEADERS) == (i == frames.len()
                        - 1)
                }
            &&& frames[0].flags.has(super::frame::Flags::END_STREAM) == end_stream
        }),
{
    let frames = block_frames(stream, end_stream, block);
    super::frame::law_flags_hold_what_was_set(end_stream, true);
    super::frame::law_flags_hold_what_was_set(end_stream, false);
    if block.len() > BLOCK_PART_MAX {
        let rest = block.skip(BLOCK_PART_MAX as int);
        lemma_continuation_frames(stream, rest);
        assert(frames.skip(1) =~= continuation_frames(stream, rest));
        assert(payloads(frames) =~= block);
        assert forall|i: int| 0 < i < frames.len() implies (#[trigger] frames[i])
            == continuation_frames(stream, rest)[i - 1] by {}
    } else {
        assert(frames.skip(1) =~= Seq::empty());
        assert(payloads(frames.skip(1)) =~= Seq::empty());
        assert(payloads(frames) =~= block);
    }
}

/// Whether the names of some fields are regular ones in lower case, and all of them are different.
pub open spec fn plain_fields(fields: Seq<crate::foreign::Field>) -> bool {
    &&& forall|i: int|
        0 <= i < fields.len() ==> {
            &&& crate::foreign::valid_header_name((#[trigger] fields[i]).0)
            &&& crate::foreign::lower_case(fields[i].0) == fields[i].0
        }
    &&& forall|i: int, j: int|
        0 <= i < j < fields.len() ==> (#[trigger] fields[i]).0 != (#[trigger] fields[j]).0
}

proof fn lemma_lines_of_field(key: Seq<u8>, values: Seq<Seq<u8>>, name: Seq<u8>)
    requires
        key.len() > 0,
        key[0] != 58,
        crate::foreign::lower_case(key) == key,
    ensures
        named_values(Seq::new(values.len(), |i: int| (key, values[i])), name) == if key == name {
            values
        } else {
            Seq::empty()
        },
    decreases values.len(),
{
    let lines = Seq::new(values.len(), |i: int| (key, values[i]));
    if values.len() > 0 {
        let front = values.drop_last();
        lemma_lines_of_field(key, front, name);
        assert(lines.drop_last() =~= Seq::new(front.len(), |i: int| (key, front[i])));
        if key == name {
            assert(front.push(values.last()) =~= values);
        }
    }
}

/// The lines of some fields hold exactly the values of the fields.
pub proof fn lemma_values_of_lines(fields: Seq<crate::foreign::Field>, name: Seq<u8>)
    requires
        plain_fields(fields),
    ensures
        named_values(crate::foreign::field_lines(fields), name) == crate::foreign::field_values(
            fields,
            name,
        ),
        !crate::foreign::has_field(fields, name) ==> crate::foreign::field_values(
            fields,
            name,
        ).len() == 0,
    decreases fields.len(),
{
    if fields.len() > 0 {
        let front = fields.drop_last();
        let last = fields.last();
        assert forall|i: int| 0 <= i < front.len() implies {
            &&& crate::foreign::valid_header_name((#[trigger] front[i]).0)
            &&& crate::foreign::lower_case(front[i].0) == front[i].0
        } by {
            assert(front[i] == fields[i]);
        }
        assert forall|i: int, j: int| 0 <= i < j < front.len() implies (#[trigger] front[i]).0 != (
        #[trigger] front[j]).0 by {
            assert(fields[i].0 != fields[j].0);
        }
        lemma_values_of_lines(front, name);
        assert(fields[fields.len() - 1] == last);
        assert(crate::foreign::is_header_name_char(last.0[0]));
        lemma_lines_of_field(last.0, last.1, name);
        let lines = Seq::new(last.1.len(), |i: int| (last.0, last.1[i]));
        lemma_named_values_join(crate::foreign::field_lines(front), lines, name);
        if last.0 == name {
            if crate::foreign::has_field(front, name) {
                let i = choose|i: int| 0 <= i < front.len() && (#[trigger] front[i]).0 == name;
                assert(fields[i].0 != fields[fields.len() - 1].0);
            }
            assert(Seq::<Seq<u8>>::empty() + last.1 =~= last.1);
        } else {
            assert(crate::foreign::field_values(front, name) + Seq::<Seq<u8>>::empty()
                =~= crate::foreign::field_values(front, name));
            if crate::foreign::has_field(front, name) {
                let i = choose|i: int| 0 <= i < front.len() && (#[trigger] front[i]).0 == name;
                assert(fields[i].0 == name);
            }
        }
    }
}

/// The header list of a response starts with its status, which is a decimal number. Behind it each
/// name has exactly the values which it has in the response, in order, and no other pseudo header.
#[verifier::spinoff_prover]
#[verifier::rlimit(30)]
pub proof fn law_response_headers_are_kept(resp: ResponseView, name: Seq<u8>)
    requires
        plain_fields(resp.fields),
    ensures
        ({
            let list = resp.header_list();
            &&& list.len() > 0
            &&& list[0].0 == crate::text::ascii(":status"@)
            &&& crate::number::parsed_u64(list[0].1) == Some(resp.status as u64)
            &&& forall|i: int| 0 < i < list.len() ==> !is_pseudo((#[trigger] list[i]).0)
            &&& named_values(list, name) == crate::foreign::field_values(resp.fields, name)
        }),
{
    let status = seq![
        (crate::text::ascii(":status"@), crate::number::decimal_text(resp.status as nat)),
    ];
    let lines = crate::foreign::field_lines(resp.fields);
    let list = resp.header_list();
    reveal_strlit(":status");
    assert(is_pseudo(status[0].0));
    crate::number::law_decimal_round_trip(resp.status as u64);
    lemma_named_values_join(status, lines, name);
    lemma_pseudo_has_no_value(status, name);
    lemma_values_of_lines(resp.fields, name);
    assert(Seq::<Seq<u8>>::empty() + named_values(lines, name) =~= named_values(lines, name));
    lemma_lines_are_regular(resp.fields);
    assert forall|i: int| 0 < i < list.len() implies !is_pseudo((#[trigger] list[i]).0) by {
        assert(list[i] == lines[i - 1]);
    }
}

proof fn lemma_lines_are_regular(fields: Seq<crate::foreign::Field>)
    requires
        forall|i: int|
            0 <= i < fields.len() ==> crate::foreign::valid_header_name((#[trigger] fields[i]).0),
    ensures
        forall|i: int|
            0 <= i < crate::foreign::field_lines(fields).len() ==> !is_pseudo(
                (#[trigger] crate::foreign::field_lines(fields)[i]).0,
            ),
    decreases fields.len(),
{
    if fields.len() > 0 {
        let front = fields.drop_last();
        let last = fields.last();
        assert forall|i: int| 0 <= i < front.len() implies crate::foreign::valid_header_name(
            (#[trigger] front[i]).0,
        ) by {
            assert(front[i] == fields[i]);
        }
        lemma_lines_are_regular(front);
        assert(fields[fields.len() - 1] == last);
        assert(crate::foreign::is_header_name_char(last.0[0]));
        let lines = crate::foreign::field_lines(fields);
        let before = crate::foreign::field_lines(front);
        assert forall|i: int| 0 <= i < lines.len() implies !is_pseudo((#[trigger] lines[i]).0) by {
            if i < before.len() {
                assert(lines[i] == before[i]);
            }
        }
    }
}

} // verus!
