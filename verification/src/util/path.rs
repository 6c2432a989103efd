//! Paths with variable parts.

use vstd::prelude::*;

use crate::foreign::{json_insert, new_json_map, parse_json_number, JsonMap};
use crate::text::{chars_equal, from_chars, to_chars};

verus! {

/// A part of a path template.
#[derive(Debug, Clone, PartialEq, Eq)]
pub enum PathElement {
    /// A static [`String`] that must be contained in the path.
    Fixed(String),
    /// A variable part of the path with the given name.
    Variable(String),
}

/// What a [`PathElement`] holds.
#[verifier::ext_equal]
pub enum PathElementView {
    Fixed(Seq<char>),
    Variable(Seq<char>),
}

impl View for PathElement {
    type V = PathElementView;

    open spec fn view(&self) -> PathElementView {
        match self {
            PathElement::Fixed(s) => PathElementView::Fixed(s@),
            PathElement::Variable(s) => PathElementView::Variable(s@),
        }
    }
}

impl PathElementView {
    /// The static text or the name of the variable.
    pub open spec fn text(self) -> Seq<char> {
        match self {
            PathElementView::Fixed(s) => s,
            PathElementView::Variable(s) => s,
        }
    }

    /// The element as it is written in a template.
    pub open spec fn written(self) -> Seq<char> {
        match self {
            PathElementView::Fixed(s) => s,
            PathElementView::Variable(s) => seq!['{'] + s + seq!['}'],
        }
    }
}

impl PathElement {
    /// The static text or the name of the variable.
    pub fn as_ref(&self) -> (text: &str)
        ensures
            text@ == self@.text(),
    {
        match self {
            PathElement::Fixed(s) => s.as_str(),
            PathElement::Variable(s) => s.as_str(),
        }
    }
}

/// What a list of elements holds.
pub open spec fn element_views(elements: Seq<PathElement>) -> Seq<PathElementView> {
    Seq::new(elements.len(), |i: int| elements[i]@)
}

/// A path template such as `/home/{user}`, which is used to read the variables out of a path.
#[derive(Debug, Clone, PartialEq, Eq)]
pub struct PathParser {
    pub elements: Vec<PathElement>,
}

/// Why a path does not fit a template.
#[derive(Debug, Clone, Copy, PartialEq, Eq, Structural)]
pub enum PathParserError {
    /// An internal variant was violated. You should inform the developer if you encounter this error.
    Internal,
    /// Deserializing the variables failed.
    JsonParseError,
    /// A path element which did not end in a slash contained a slash, which is not permitted.
    InvalidSlash,
    /// The parser expected more path elements, but the provided path did not contain them.
    UnexpectedEndOfPath,
}

/// The value of a variable.
#[derive(Debug, Clone, PartialEq, Eq)]
pub enum PathValue {
    Null,
    Bool(bool),
    /// A number in its written form.
    Number(String),
    Text(String),
}

/// What a [`PathValue`] holds.
#[verifier::ext_equal]
pub enum PathValueView {
    Null,
    Bool(bool),
    Number(Seq<char>),
    Text(Seq<char>),
}

impl View for PathValue {
    type V = PathValueView;

    open spec fn view(&self) -> PathValueView {
        match self {
            PathValue::Null => PathValueView::Null,
            PathValue::Bool(b) => PathValueView::Bool(*b),
            PathValue::Number(s) => PathValueView::Number(s@),
            PathValue::Text(s) => PathValueView::Text(s@),
        }
    }
}

impl PathValueView {
    /// The value which a text stands for, given whether the text is a number.
    pub open spec fn classified(text: Seq<char>, number: bool) -> PathValueView {
        if text == "null"@ {
            PathValueView::Null
        } else if text == "true"@ {
            PathValueView::Bool(true)
        } else if text == "false"@ {
            PathValueView::Bool(false)
        } else if number {
            PathValueView::Number(text)
        } else {
            PathValueView::Text(text)
        }
    }

    /// The value which a text stands for.
    pub open spec fn of(text: Seq<char>) -> PathValueView {
        Self::classified(text, crate::foreign::json_number(text) is Some)
    }

    /// The value as an entry of a JSON object, where a number loses the form in which it was written.
    pub open spec fn entry(self) -> PathValueView {
        match self {
            PathValueView::Number(text) => PathValueView::Number(
                crate::foreign::json_number(text)->0,
            ),
            _ => self,
        }
    }
}

impl PathValue {
    /// The value which a text stands for, given whether the text is a number.
    pub fn classify(text: String, number: bool) -> (value: Self)
        ensures
            value@ == PathValueView::classified(text@, number),
    {
        let chars: Vec<char> = to_chars(text.as_str());
        if chars_equal(chars.as_slice(), to_chars("null").as_slice()) {
            return PathValue::Null;
        }
        if chars_equal(chars.as_slice(), to_chars("true").as_slice()) {
            return PathValue::Bool(true);
        }
        if chars_equal(chars.as_slice(), to_chars("false").as_slice()) {
            return PathValue::Bool(false);
        }
        if number {
            return PathValue::Number(text);
        }

        PathValue::Text(text)
    }
}

/// Whether one of the elements has the given text.
pub open spec fn is_taken(elements: Seq<PathElementView>, text: Seq<char>) -> bool {
    exists|i: int| 0 <= i < elements.len() && (#[trigger] elements[i]).text() == text
}

/// The elements of the template `s`, whose part in front of `at` is split into the elements `done`
/// and the begin `current` of the next one.
pub open spec fn scanned(
    s: Seq<char>,
    at: int,
    done: Seq<PathElementView>,
    current: Seq<char>,
    fixed: bool,
) -> Option<Seq<PathElementView>>
    decreases s.len() - at,
{
    if at >= s.len() || at < 0 {
        if !fixed {
            None
        } else if current.len() == 0 {
            Some(done)
        } else {
            Some(done.push(PathElementView::Fixed(current)))
        }
    } else if fixed {
        if s[at] == '}' {
            None
        } else if s[at] == '{' {
            if current.len() == 0 {
                None
            } else {
                scanned(s, at + 1, done.push(PathElementView::Fixed(current)), Seq::empty(), false)
            }
        } else {
            scanned(s, at + 1, done, current.push(s[at]), true)
        }
    } else {
        if s[at] == '{' || s[at] == '/' {
            None
        } else if s[at] == '}' {
            if current.len() == 0 || is_taken(done, current) {
                None
            } else {
                scanned(
                    s,
                    at + 1,
                    done.push(PathElementView::Variable(current)),
                    Seq::empty(),
                    true,
                )
            }
        } else {
            scanned(s, at + 1, done, current.push(s[at]), false)
        }
    }
}

/// The elements of the template `s`, if it is one.
pub open spec fn template(s: Seq<char>) -> Option<Seq<PathElementView>> {
    if s.len() == 0 || s[0] != '/' {
        None
    } else {
        scanned(s, 0, Seq::empty(), Seq::empty(), true)
    }
}

/// The template in its written form.
pub open spec fn written(elements: Seq<PathElementView>) -> Seq<char>
    decreases elements.len(),
{
    if elements.len() == 0 {
        Seq::empty()
    } else {
        written(elements.drop_last()) + elements.last().written()
    }
}

/// The part of `path` which belongs to a variable in front of a text which starts with `search`.
pub open spec fn variable_end(path: Seq<char>, at: int, search: char) -> Result<
    int,
    PathParserError,
>
    decreases path.len() - at,
{
    if at >= path.len() || at < 0 {
        Err(PathParserError::UnexpectedEndOfPath)
    } else if path[at] == search {
        Ok(at)
    } else if path[at] == '/' {
        Err(PathParserError::InvalidSlash)
    } else {
        variable_end(path, at + 1, search)
    }
}

/// The part of `path` in front of the first slash.
pub open spec fn slash_or_end(path: Seq<char>, at: int) -> int
    decreases path.len() - at,
{
    if at >= path.len() || at < 0 || path[at] == '/' {
        at
    } else {
        slash_or_end(path, at + 1)
    }
}

/// How much of `path` belongs to the variable `idx`.
pub open spec fn variable_len(elements: Seq<PathElementView>, idx: int, path: Seq<char>) -> Result<
    int,
    PathParserError,
> {
    if idx + 1 < elements.len() {
        let text = elements[idx + 1].text();
        if text.len() == 0 {
            Err(PathParserError::Internal)
        } else {
            variable_end(path, 0, text[0])
        }
    } else {
        Ok(slash_or_end(path, 0))
    }
}

/// The variables of a path.
pub type Variables = Map<Seq<char>, PathValueView>;

/// The variables in `found` and those which the elements from `idx` on find in `path`. The path must
/// not end in front of the last element. What comes behind it is left out.
pub open spec fn parsed_from(
    elements: Seq<PathElementView>,
    idx: int,
    path: Seq<char>,
    found: Variables,
) -> Result<Variables, PathParserError>
    decreases elements.len() - idx,
{
    if idx >= elements.len() || idx < 0 {
        Ok(found)
    } else if path.len() == 0 {
        Err(PathParserError::UnexpectedEndOfPath)
    } else {
        match elements[idx] {
            PathElementView::Fixed(prefix) => if prefix.is_prefix_of(path) {
                parsed_from(elements, idx + 1, path.skip(prefix.len() as int), found)
            } else {
                Err(PathParserError::Internal)
            },
            PathElementView::Variable(name) => match variable_len(elements, idx, path) {
                Ok(len) => parsed_from(
                    elements,
                    idx + 1,
                    path.skip(len),
                    found.insert(name, PathValueView::of(path.take(len)).entry()),
                ),
                Err(err) => Err(err),
            },
        }
    }
}

impl PathParser {
    /// The elements of the template.
    pub fn elements(&self) -> (elements: &Vec<PathElement>)
        ensures
            *elements == self.elements,
    {
        &self.elements
    }

    /// Reads the variables out of a path. Each one becomes an entry of a JSON object.
    pub fn parse(&self, path: &str) -> (ret: Result<JsonMap, PathParserError>)
        ensures
            parsed_from(element_views(self.elements@), 0, path@, Map::empty()) == match ret {
                Ok(map) => Ok(crate::foreign::json_entries(map)),
                Err(err) => Err(err),
            },
    {
        let chars: Vec<char> = to_chars(path);
        let ghost elements = element_views(self.elements@);
        let mut begin: usize = 0;
        let mut map = new_json_map();
        let mut idx: usize = 0;
        proof {
            assert(chars@.skip(0) =~= chars@);
            assert(crate::foreign::json_entries(map) =~= Map::empty());
        }
        while idx < self.elements.len()
            invariant
                idx <= self.elements@.len(),
                begin <= chars@.len(),
                chars@ == path@,
                elements == element_views(self.elements@),
                parsed_from(elements, 0, chars@, Map::empty()) == parsed_from(
                    elements,
                    idx as int,
                    chars@.skip(begin as int),
                    crate::foreign::json_entries(map),
                ),
            decreases self.elements@.len() - idx,
        {
            let rest: &[char] = vstd::slice::slice_subrange(chars.as_slice(), begin, chars.len());
            proof {
                assert(rest@ =~= chars@.skip(begin as int));
                assert(elements[idx as int] == self.elements@[idx as int]@);
            }
            if rest.len() == 0 {
                return Err(PathParserError::UnexpectedEndOfPath);
            }
            match &self.elements[idx] {
                PathElement::Fixed(prefix) => {
                    let prefix: Vec<char> = to_chars(prefix.as_str());
                    if !starts_with(rest, prefix.as_slice()) {
                        return Err(PathParserError::Internal);
                    }
                    proof {
                        assert(rest@.skip(prefix@.len() as int) =~= chars@.skip(
                            begin + prefix@.len(),
                        ));
                    }
                    begin = begin + prefix.len();
                },
                PathElement::Variable(name) => {
                    let len: usize = match self.find_variable_len(idx, rest) {
                        Ok(len) => len,
                        Err(err) => return Err(err),
                    };
                    let value: &[char] = vstd::slice::slice_subrange(rest, 0, len);
                    proof {
                        assert(value@ =~= rest@.take(len as int));
                        assert(rest@.skip(len as int) =~= chars@.skip(begin + len));
                    }
                    json_insert(&mut map, name, Self::string_to_json_value(from_chars(value)));
                    begin = begin + len;
                },
            }
            idx = idx + 1;
        }

        Ok(map)
    }

    /// Finds out how much of `path` belongs to the variable `idx`.
    fn find_variable_len(&self, idx: usize, path: &[char]) -> (ret: Result<usize, PathParserError>)
        requires
            idx < self.elements@.len(),
        ensures
            variable_len(element_views(self.elements@), idx as int, path@) == match ret {
                Ok(len) => Ok(len as int),
                Err(err) => Err(err),
            },
            ret matches Ok(len) ==> len <= path@.len(),
    {
        let count: usize = self.elements.len();
        if idx + 1 < count {
            // There is another element, so make sure we find the proper end.
            let text: Vec<char> = to_chars(self.elements[idx + 1].as_ref());
            proof {
                assert(element_views(self.elements@)[idx + 1] == self.elements@[idx + 1]@);
            }
            if text.len() == 0 {
                return Err(PathParserError::Internal);
            }
            let search: char = text[0];
            let mut at: usize = 0;
            while at < path.len()
                invariant
                    at <= path@.len(),
                    variable_end(path@, 0, search) == variable_end(path@, at as int, search),
                    variable_len(element_views(self.elements@), idx as int, path@) == variable_end(
                        path@,
                        0,
                        search,
                    ),
                decreases path@.len() - at,
            {
                if path[at] == search {
                    return Ok(at);
                }
                if path[at] == '/' {
                    // Invalid end of the variable element.
                    return Err(PathParserError::InvalidSlash);
                }
                at = at + 1;
            }

            Err(PathParserError::UnexpectedEndOfPath)
        } else {
            // This is the last element, so read to the end or until we find a slash.
            let mut at: usize = 0;
            while at < path.len() && path[at] != '/'
                invariant
                    at <= path@.len(),
                    slash_or_end(path@, 0) == slash_or_end(path@, at as int),
                decreases path@.len() - at,
            {
                at = at + 1;
            }

            Ok(at)
        }
    }

    /// The value which a text stands for.
    fn string_to_json_value(text: String) -> (value: PathValue)
        ensures
            value@ == PathValueView::of(text@),
    {
        let number = parse_json_number(text.as_str()).is_some();

        PathValue::classify(text, number)
    }

    /// Parses a template.
    pub fn from_str(s: &str) -> (ret: Result<Self, ()>)
        ensures
            template(s@) == match ret {
                Ok(parser) => Some(element_views(parser.elements@)),
                Err(()) => None,
            },
    {
        let chars: Vec<char> = to_chars(s);
        if chars.len() == 0 || chars[0] != '/' {
            return Err(());
        }
        let mut elements: Vec<PathElement> = Vec::new();
        let mut element: Vec<char> = Vec::new();
        let mut fixed = true;
        let mut at: usize = 0;
        proof {
            assert(element_views(elements@) =~= Seq::empty());
            assert(element@ =~= Seq::empty());
        }
        while at < chars.len()
            invariant
                at <= chars@.len(),
                chars@ == s@,
                template(s@) == scanned(
                    chars@,
                    at as int,
                    element_views(elements@),
                    element@,
                    fixed,
                ),
            decreases chars@.len() - at,
        {
            let ch: char = chars[at];
            let ghost before = elements@;
            if fixed {
                if ch == '}' {
                    return Err(());
                }
                if ch == '{' {
                    if element.len() == 0 {
                        return Err(());
                    }
                    elements.push(PathElement::Fixed(from_chars(element.as_slice())));
                    proof {
                        assert(element_views(elements@) =~= element_views(before).push(
                            PathElementView::Fixed(element@),
                        ));
                    }
                    element = Vec::new();
                    fixed = false;
                    at = at + 1;
                    continue ;
                }
            } else {
                if ch == '{' {
                    return Err(());
                }
                if ch == '/' {
                    return Err(());
                }
                if ch == '}' {
                    if element.len() == 0 {
                        return Err(());
                    }
                    if is_text_taken(&elements, element.as_slice()) {
                        return Err(());
                    }
                    elements.push(PathElement::Variable(from_chars(element.as_slice())));
                    proof {
                        assert(element_views(elements@) =~= element_views(before).push(
                            PathElementView::Variable(element@),
                        ));
                    }
                    element = Vec::new();
                    fixed = true;
                    at = at + 1;
                    continue ;
                }
            }
            element.push(ch);
            at = at + 1;
        }
        if !fixed {
            return Err(());
        }
        if element.len() != 0 {
            let ghost before = elements@;
            elements.push(PathElement::Fixed(from_chars(element.as_slice())));
            proof {
                assert(element_views(elements@) =~= element_views(before).push(
                    PathElementView::Fixed(element@),
                ));
            }
        }

        Ok(PathParser { elements })
    }
}

/// Tests whether a text starts with a prefix.
fn starts_with(text: &[char], prefix: &[char]) -> (ret: bool)
    ensures
        ret == prefix@.is_prefix_of(text@),
{
    if prefix.len() > text.len() {
        return false;
    }
    let front: &[char] = vstd::slice::slice_subrange(text, 0, prefix.len());
    chars_equal(front, prefix)
}

/// Tests whether one of the elements has the given text.
fn is_text_taken(elements: &Vec<PathElement>, text: &[char]) -> (ret: bool)
    ensures
        ret == is_taken(element_views(elements@), text@),
{
    let ghost views = element_views(elements@);
    let mut i: usize = 0;
    while i < elements.len()
        invariant
            i <= elements@.len(),
            views == element_views(elements@),
            forall|j: int| 0 <= j < i ==> (#[trigger] views[j]).text() != text@,
        decreases elements@.len() - i,
    {
        proof {
            assert(views[i as int] == elements@[i as int]@);
        }
        if chars_equal(to_chars(elements[i].as_ref()).as_slice(), text) {
            return true;
        }
        i = i + 1;
    }

    false
}

/// Whether a char has no meaning of its own in a static text or in the name of a variable.
pub open spec fn is_plain(ch: char, fixed: bool) -> bool {
    ch != '{' && ch != '}' && (fixed || ch != '/')
}

/// Whether all chars of a text have no meaning of their own.
pub open spec fn all_plain(text: Seq<char>, fixed: bool) -> bool {
    forall|i: int| 0 <= i < text.len() ==> is_plain(#[trigger] text[i], fixed)
}

/// Static texts and variables take turns, none of them is empty, and no variable has the text of
/// an element in front of it.
pub open spec fn take_turns(elements: Seq<PathElementView>) -> bool {
    &&& forall|i: int|
        0 <= i < elements.len() ==> {
            let element = #[trigger] elements[i];
            &&& element is Fixed <==> i % 2 == 0
            &&& element.text().len() > 0
            &&& all_plain(element.text(), i % 2 == 0)
        }
    &&& forall|i: int, j: int|
        0 <= i < j < elements.len() && j % 2 == 1 ==> (#[trigger] elements[i]).text() != (
        #[trigger] elements[j]).text()
}

/// The elements of a template: they take turns and start with a slash.
pub open spec fn is_template(elements: Seq<PathElementView>) -> bool {
    elements.len() > 0 && take_turns(elements) && elements[0].text()[0] == '/'
}

proof fn lemma_written_push(elements: Seq<PathElementView>, element: PathElementView)
    ensures
        written(elements.push(element)) == written(elements) + element.written(),
{
    assert(elements.push(element).drop_last() =~= elements);
}

proof fn lemma_turns_push(elements: Seq<PathElementView>, element: PathElementView)
    requires
        take_turns(elements),
        element is Fixed <==> elements.len() % 2 == 0,
        element.text().len() > 0,
        all_plain(element.text(), elements.len() % 2 == 0),
        element is Variable ==> !is_taken(elements, element.text()),
    ensures
        take_turns(elements.push(element)),
{
    let next = elements.push(element);
    assert forall|i: int, j: int| 0 <= i < j < next.len() && j % 2 == 1 implies (
    #[trigger] next[i]).text() != (#[trigger] next[j]).text() by {
        assert(next[i] == elements[i]);
        if j < elements.len() {
            assert(next[j] == elements[j]);
        }
    }
}

/// Scanning only accepts lists whose elements take turns and whose written form is the template.
proof fn lemma_scan_sound(
    s: Seq<char>,
    at: int,
    done: Seq<PathElementView>,
    current: Seq<char>,
    fixed: bool,
)
    requires
        0 <= at <= s.len(),
        take_turns(done),
        fixed <==> done.len() % 2 == 0,
        all_plain(current, fixed),
        written(done) + (if fixed {
            current
        } else {
            seq!['{'] + current
        }) == s.take(at),
    ensures
        scanned(s, at, done, current, fixed) matches Some(elements) ==> take_turns(elements)
            && written(elements) == s,
    decreases s.len() - at,
{
    if at == s.len() {
        assert(s.take(at) =~= s);
        if fixed {
            if current.len() > 0 {
                lemma_written_push(done, PathElementView::Fixed(current));
                lemma_turns_push(done, PathElementView::Fixed(current));
            } else {
                assert(written(done) + current =~= written(done));
            }
        }
    } else {
        let ch = s[at];
        assert(s.take(at + 1) =~= s.take(at).push(ch));
        if is_plain(ch, fixed) {
            assert(written(done) + (if fixed {
                current.push(ch)
            } else {
                seq!['{'] + current.push(ch)
            }) =~= s.take(at + 1));
            lemma_scan_sound(s, at + 1, done, current.push(ch), fixed);
        } else if fixed && ch == '{' && current.len() > 0 {
            let next = done.push(PathElementView::Fixed(current));
            lemma_written_push(done, PathElementView::Fixed(current));
            lemma_turns_push(done, PathElementView::Fixed(current));
            assert(written(next) + (seq!['{'] + Seq::<char>::empty()) =~= s.take(at + 1));
            lemma_scan_sound(s, at + 1, next, Seq::empty(), false);
        } else if !fixed && ch == '}' && current.len() > 0 && !is_taken(done, current) {
            let next = done.push(PathElementView::Variable(current));
            lemma_written_push(done, PathElementView::Variable(current));
            lemma_turns_push(done, PathElementView::Variable(current));
            assert(written(next) + Seq::<char>::empty() =~= s.take(at + 1));
            lemma_scan_sound(s, at + 1, next, Seq::empty(), true);
        }
    }
}

/// The written form starts with the first static text.
proof fn lemma_written_first(elements: Seq<PathElementView>)
    requires
        elements.len() > 0,
        elements[0] is Fixed,
        elements[0].text().len() > 0,
    ensures
        written(elements).len() > 0,
        written(elements)[0] == elements[0].text()[0],
    decreases elements.len(),
{
    if elements.len() == 1 {
        assert(written(elements.drop_last()) =~= Seq::empty());
        assert(written(elements) =~= elements[0].text());
    } else {
        assert(elements.drop_last()[0] == elements[0]);
        lemma_written_first(elements.drop_last());
    }
}

/// What is accepted as a template is one, and its written form is the text that was parsed.
pub proof fn law_template_is_written_form(s: Seq<char>)
    ensures
        template(s) matches Some(elements) ==> is_template(elements) && written(elements) == s,
{
    if s.len() > 0 && s[0] == '/' {
        assert(written(Seq::empty()) + Seq::<char>::empty() =~= s.take(0));
        lemma_scan_sound(s, 0, Seq::empty(), Seq::empty(), true);
        if let Some(elements) = template(s) {
            if elements.len() == 0 {
                assert(written(elements).len() == 0);
            }
            lemma_written_first(elements);
        }
    }
}

/// Scanning takes in plain chars one after the other.
proof fn lemma_scan_run(
    s: Seq<char>,
    at: int,
    n: int,
    done: Seq<PathElementView>,
    current: Seq<char>,
    fixed: bool,
)
    requires
        0 <= at,
        0 <= n,
        at + n <= s.len(),
        all_plain(s.subrange(at, at + n), fixed),
    ensures
        scanned(s, at, done, current, fixed) == scanned(
            s,
            at + n,
            done,
            current + s.subrange(at, at + n),
            fixed,
        ),
    decreases n,
{
    if n == 0 {
        assert(current + s.subrange(at, at) =~= current);
    } else {
        let run = s.subrange(at, at + n);
        assert(is_plain(run[0], fixed));
        assert(run[0] == s[at]);
        assert(all_plain(s.subrange(at + 1, at + n), fixed)) by {
            assert forall|i: int| 0 <= i < n - 1 implies is_plain(
                #[trigger] s.subrange(at + 1, at + n)[i],
                fixed,
            ) by {
                assert(s.subrange(at + 1, at + n)[i] == run[i + 1]);
            }
        }
        lemma_scan_run(s, at + 1, n - 1, done, current.push(s[at]), fixed);
        assert(current.push(s[at]) + s.subrange(at + 1, at + n) =~= current + run);
    }
}

/// The written forms of the first elements are a prefix of the written form of all of them.
proof fn lemma_written_take(elements: Seq<PathElementView>, n: int)
    requires
        0 <= n < elements.len(),
    ensures
        written(elements.take(n + 1)) == written(elements.take(n)) + elements[n].written(),
        written(elements.take(n + 1)).len() <= written(elements).len(),
        written(elements).take(written(elements.take(n + 1)).len() as int) == written(
            elements.take(n + 1),
        ),
    decreases elements.len() - n,
{
    assert(elements.take(n + 1).drop_last() =~= elements.take(n));
    if n + 1 == elements.len() {
        assert(elements.take(n + 1) =~= elements);
        assert(written(elements).take(written(elements).len() as int) =~= written(elements));
    } else {
        lemma_written_take(elements, n + 1);
        let shorter = written(elements.take(n + 1));
        let longer = written(elements.take(n + 2));
        assert(longer.take(shorter.len() as int) =~= shorter);
        assert(written(elements).take(shorter.len() as int) =~= written(elements).take(
            longer.len() as int,
        ).take(shorter.len() as int));
    }
}

/// Scanning the written form of a list of elements runs into the first `n` of them. A static text
/// is only known to be complete when something follows.
#[verifier::spinoff_prover]
#[verifier::rlimit(50)]
proof fn lemma_scan_elements(elements: Seq<PathElementView>, n: int)
    requires
        take_turns(elements),
        0 <= n <= elements.len(),
    ensures
        ({
            let s = written(elements);
            let at = written(elements.take(n)).len() as int;
            scanned(s, 0, Seq::empty(), Seq::empty(), true) == if n % 2 == 0 {
                scanned(s, at, elements.take(n), Seq::empty(), true)
            } else {
                scanned(s, at, elements.take(n - 1), elements[n - 1].text(), true)
            }
        }),
    decreases n,
{
    let s = written(elements);
    if n == 0 {
        assert(elements.take(0) =~= Seq::empty());
    } else {
        lemma_scan_elements(elements, n - 1);
        lemma_written_take(elements, n - 1);
        let before = written(elements.take(n - 1)).len() as int;
        let at = written(elements.take(n)).len() as int;
        let element = elements[n - 1];
        let piece = element.written();
        assert(s.subrange(before, at) =~= piece) by {
            assert forall|i: int| 0 <= i < piece.len() implies s[before + i] == piece[i] by {
                assert(s.take(at)[before + i] == s[before + i]);
            }
        }
        if n % 2 == 1 {
            lemma_scan_run(s, before, at - before, elements.take(n - 1), Seq::empty(), true);
            assert(Seq::<char>::empty() + piece =~= element.text());
        } else {
            let name = element.text();
            let done = elements.take(n - 1);
            assert(elements.take(n - 2).push(PathElementView::Fixed(elements[n - 2].text()))
                =~= done);
            assert(piece =~= seq!['{'] + name + seq!['}']);
            assert(s[before] == piece[0]);
            assert(s.subrange(before + 1, before + 1 + name.len()) =~= name) by {
                assert forall|i: int| 0 <= i < name.len() implies s[before + 1 + i] == name[i] by {
                    assert(s.subrange(before, at)[i + 1] == piece[i + 1]);
                }
            }
            lemma_scan_run(s, before + 1, name.len() as int, done, Seq::empty(), false);
            assert(Seq::<char>::empty() + name =~= name);
            assert(s[at - 1] == '}') by {
                assert(s.subrange(before, at)[at - before - 1] == piece[at - before - 1]);
            }
            assert(!is_taken(done, name)) by {
                assert forall|i: int| 0 <= i < done.len() implies (#[trigger] done[i]).text()
                    != name by {
                    assert(done[i] == elements[i]);
                    assert(elements[i].text() != elements[n - 1].text());
                }
            }
            assert(done.push(PathElementView::Variable(name)) =~= elements.take(n));
        }
    }
}

/// Every list of elements of a template is what its written form is parsed to.
pub proof fn law_written_form_is_template(elements: Seq<PathElementView>)
    requires
        is_template(elements),
    ensures
        template(written(elements)) == Some(elements),
{
    lemma_written_first(elements);
    let n = elements.len() as int;
    lemma_scan_elements(elements, n);
    assert(elements.take(n) =~= elements);
    if n % 2 == 1 {
        assert(elements.take(n - 1).push(PathElementView::Fixed(elements[n - 1].text()))
            =~= elements);
    }
}

/// The path which the elements from `idx` on describe, with the given texts for its variables.
pub open spec fn filled_from(
    elements: Seq<PathElementView>,
    values: Seq<Seq<char>>,
    idx: int,
) -> Seq<char>
    decreases elements.len() - idx,
{
    if idx >= elements.len() || idx < 0 {
        Seq::empty()
    } else {
        (match elements[idx] {
            PathElementView::Fixed(text) => text,
            PathElementView::Variable(_) => values[idx],
        }) + filled_from(elements, values, idx + 1)
    }
}

/// The variables in `found` and those of the elements from `idx` on.
pub open spec fn bound_from(
    elements: Seq<PathElementView>,
    values: Seq<Seq<char>>,
    idx: int,
    found: Variables,
) -> Variables
    decreases elements.len() - idx,
{
    if idx >= elements.len() || idx < 0 {
        found
    } else {
        match elements[idx] {
            PathElementView::Fixed(_) => bound_from(elements, values, idx + 1, found),
            PathElementView::Variable(name) => bound_from(
                elements,
                values,
                idx + 1,
                found.insert(name, PathValueView::of(values[idx]).entry()),
            ),
        }
    }
}

/// Whether a text can stand for the variable `idx`: it holds no slash and not the char which ends
/// the variable, and it is not empty at the end of the path.
pub open spec fn can_stand_for(
    elements: Seq<PathElementView>,
    idx: int,
    value: Seq<char>,
) -> bool {
    &&& forall|i: int| 0 <= i < value.len() ==> #[trigger] value[i] != '/'
    &&& if idx + 1 < elements.len() {
        forall|i: int| 0 <= i < value.len() ==> #[trigger] value[i] != elements[idx + 1].text()[0]
    } else {
        value.len() > 0
    }
}

proof fn lemma_variable_end(value: Seq<char>, rest: Seq<char>, at: int, search: char)
    requires
        0 <= at <= value.len(),
        rest.len() > 0,
        rest[0] == search,
        forall|i: int| 0 <= i < value.len() ==> #[trigger] value[i] != '/' && value[i] != search,
    ensures
        variable_end(value + rest, at, search) == Ok::<int, PathParserError>(value.len() as int),
    decreases value.len() - at,
{
    if at < value.len() {
        assert((value + rest)[at] == value[at]);
        lemma_variable_end(value, rest, at + 1, search);
    } else {
        assert((value + rest)[at] == rest[0]);
    }
}

proof fn lemma_slash_or_end(value: Seq<char>, at: int)
    requires
        0 <= at <= value.len(),
        forall|i: int| 0 <= i < value.len() ==> #[trigger] value[i] != '/',
    ensures
        slash_or_end(value, at) == value.len(),
    decreases value.len() - at,
{
    if at < value.len() {
        lemma_slash_or_end(value, at + 1);
    }
}

proof fn lemma_parse_filled(
    elements: Seq<PathElementView>,
    values: Seq<Seq<char>>,
    idx: int,
    found: Variables,
)
    requires
        take_turns(elements),
        0 <= idx <= elements.len(),
        values.len() == elements.len(),
        forall|i: int|
            0 <= i < elements.len() && elements[i] is Variable ==> can_stand_for(
                elements,
                i,
                #[trigger] values[i],
            ),
    ensures
        parsed_from(elements, idx, filled_from(elements, values, idx), found) == Ok::<
            Variables,
            PathParserError,
        >(bound_from(elements, values, idx, found)),
    decreases elements.len() - idx,
{
    if idx < elements.len() {
        let path = filled_from(elements, values, idx);
        let rest = filled_from(elements, values, idx + 1);
        match elements[idx] {
            PathElementView::Fixed(text) => {
                assert(path =~= text + rest);
                assert(path.take(text.len() as int) =~= text);
                assert(path.skip(text.len() as int) =~= rest);
                lemma_parse_filled(elements, values, idx + 1, found);
            },
            PathElementView::Variable(name) => {
                let value = values[idx];
                assert(path =~= value + rest);
                assert(can_stand_for(elements, idx, value));
                if idx + 1 < elements.len() {
                    let search = elements[idx + 1].text()[0];
                    assert(elements[idx + 1] is Fixed);
                    assert(rest[0] == search);
                    lemma_variable_end(value, rest, 0, search);
                } else {
                    assert(rest =~= Seq::empty());
                    assert(path =~= value);
                    lemma_slash_or_end(value, 0);
                }
                assert(path.take(value.len() as int) =~= value);
                assert(path.skip(value.len() as int) =~= rest);
                lemma_parse_filled(
                    elements,
                    values,
                    idx + 1,
                    found.insert(name, PathValueView::of(value).entry()),
                );
            },
        }
    }
}

/// What was found stays found, and a path which is read has a value for every variable which is left.
proof fn lemma_variables_found(
    elements: Seq<PathElementView>,
    idx: int,
    path: Seq<char>,
    found: Variables,
)
    requires
        0 <= idx <= elements.len(),
    ensures
        parsed_from(elements, idx, path, found) matches Ok(all) ==> {
            &&& found.dom().subset_of(all.dom())
            &&& forall|i: int|
                idx <= i < elements.len() && (#[trigger] elements[i]) is Variable
                    ==> all.contains_key(elements[i].text())
        },
    decreases elements.len() - idx,
{
    if idx < elements.len() && path.len() > 0 {
        match elements[idx] {
            PathElementView::Fixed(prefix) => {
                lemma_variables_found(elements, idx + 1, path.skip(prefix.len() as int), found);
            },
            PathElementView::Variable(name) => {
                if let Ok(len) = variable_len(elements, idx, path) {
                    let next = found.insert(name, PathValueView::of(path.take(len)).entry());
                    lemma_variables_found(elements, idx + 1, path.skip(len), next);
                    assert(next.contains_key(name));
                    assert(found.dom().subset_of(next.dom()));
                }
            },
        }
    }
}

/// A path which is read has a value for every variable of the template.
pub proof fn law_all_variables_are_found(elements: Seq<PathElementView>, path: Seq<char>)
    ensures
        parsed_from(elements, 0, path, Map::empty()) matches Ok(all) ==> forall|i: int|
            0 <= i < elements.len() && (#[trigger] elements[i]) is Variable ==> all.contains_key(
                elements[i].text(),
            ),
{
    lemma_variables_found(elements, 0, path, Map::empty());
}

/// A path which was built by putting texts in the place of the variables of a template is read
/// back: each variable has the value of its text.
pub proof fn law_parse_reads_back(elements: Seq<PathElementView>, values: Seq<Seq<char>>)
    requires
        is_template(elements),
        values.len() == elements.len(),
        forall|i: int|
            0 <= i < elements.len() && elements[i] is Variable ==> can_stand_for(
                elements,
                i,
                #[trigger] values[i],
            ),
    ensures
        parsed_from(elements, 0, filled_from(elements, values, 0), Map::empty()) == Ok::<
            Variables,
            PathParserError,
        >(bound_from(elements, values, 0, Map::empty())),
{
    lemma_parse_filled(elements, values, 0, Map::empty());
}

/// Where a variable ends which is followed by a text which starts with `search`.
proof fn lemma_variable_is_cut(path: Seq<char>, at: int, search: char)
    requires
        0 <= at <= path.len(),
        forall|i: int| 0 <= i < at ==> #[trigger] path[i] != '/' && path[i] != search,
    ensures
        variable_end(path, at, search) matches Ok(end) ==> {
            &&& at <= end < path.len()
            &&& path[end] == search
            &&& forall|i: int| 0 <= i < end ==> #[trigger] path[i] != '/' && path[i] != search
        },
    decreases path.len() - at,
{
    if at < path.len() && path[at] != search && path[at] != '/' {
        lemma_variable_is_cut(path, at + 1, search);
    }
}

/// Where a variable ends which nothing follows.
proof fn lemma_last_variable_is_cut(path: Seq<char>, at: int)
    requires
        0 <= at <= path.len(),
        forall|i: int| 0 <= i < at ==> #[trigger] path[i] != '/',
    ensures
        at <= slash_or_end(path, at) <= path.len(),
        slash_or_end(path, at) < path.len() ==> path[slash_or_end(path, at)] == '/',
        forall|i: int| 0 <= i < slash_or_end(path, at) ==> #[trigger] path[i] != '/',
    decreases path.len() - at,
{
    if at < path.len() && path[at] != '/' {
        lemma_last_variable_is_cut(path, at + 1);
    }
}

/// Whether a text is what the variable `idx` stands for in front of `tail`: it holds no slash, and
/// it goes on to the first char of the next element or, at the end of the template, to a slash or
/// the end of the path.
pub open spec fn is_cut_out(
    elements: Seq<PathElementView>,
    idx: int,
    value: Seq<char>,
    tail: Seq<char>,
) -> bool {
    &&& forall|i: int| 0 <= i < value.len() ==> #[trigger] value[i] != '/'
    &&& if idx + 1 < elements.len() {
        forall|i: int| 0 <= i < value.len() ==> #[trigger] value[i] != elements[idx + 1].text()[0]
    } else {
        &&& value.len() + tail.len() > 0
        &&& tail.len() > 0 ==> tail[0] == '/'
    }
}

/// Whether `path` is the template from the element `idx` on, with the given texts in the place of
/// its variables, and `tail` behind it.
pub open spec fn fits(
    elements: Seq<PathElementView>,
    values: Seq<Seq<char>>,
    idx: int,
    path: Seq<char>,
    tail: Seq<char>,
) -> bool {
    &&& values.len() == elements.len()
    &&& path == filled_from(elements, values, idx) + tail
    &&& forall|i: int|
        idx <= i < elements.len() && elements[i] is Variable ==> is_cut_out(
            elements,
            i,
            #[trigger] values[i],
            tail,
        )
}

/// What is filled in depends on the texts of the elements from `idx` on alone.
proof fn lemma_filled_same(
    elements: Seq<PathElementView>,
    one: Seq<Seq<char>>,
    other: Seq<Seq<char>>,
    idx: int,
    found: Variables,
)
    requires
        0 <= idx <= elements.len(),
        forall|i: int| idx <= i < elements.len() ==> #[trigger] one[i] == other[i],
    ensures
        filled_from(elements, one, idx) == filled_from(elements, other, idx),
        bound_from(elements, one, idx, found) == bound_from(elements, other, idx, found),
    decreases elements.len() - idx,
{
    if idx < elements.len() {
        assert(one[idx] == other[idx]);
        match elements[idx] {
            PathElementView::Fixed(_) => lemma_filled_same(elements, one, other, idx + 1, found),
            PathElementView::Variable(name) => lemma_filled_same(
                elements,
                one,
                other,
                idx + 1,
                found.insert(name, PathValueView::of(one[idx]).entry()),
            ),
        }
    }
}

/// The texts which an accepted path has in the place of the variables, and what is behind them.
#[verifier::spinoff_prover]
#[verifier::rlimit(30)]
proof fn lemma_accepted_fits(
    elements: Seq<PathElementView>,
    idx: int,
    path: Seq<char>,
    found: Variables,
) -> (ret: (Seq<Seq<char>>, Seq<char>))
    requires
        0 <= idx <= elements.len(),
        parsed_from(elements, idx, path, found) is Ok,
    ensures
        fits(elements, ret.0, idx, path, ret.1),
        parsed_from(elements, idx, path, found) == Ok::<Variables, PathParserError>(
            bound_from(elements, ret.0, idx, found),
        ),
    decreases elements.len() - idx,
{
    if idx == elements.len() {
        let values: Seq<Seq<char>> = Seq::new(elements.len(), |i: int| Seq::empty());
        assert(path =~= filled_from(elements, values, idx) + path);
        (values, path)
    } else {
        match elements[idx] {
            PathElementView::Fixed(text) => {
                let rest = path.skip(text.len() as int);
                let (values, tail) = lemma_accepted_fits(elements, idx + 1, rest, found);
                assert(path.take(text.len() as int) =~= text);
                assert(path =~= text + rest);
                let filled = filled_from(elements, values, idx + 1);
                assert(text + (filled + tail) =~= (text + filled) + tail);
                (values, tail)
            },
            PathElementView::Variable(name) => {
                let len = variable_len(elements, idx, path)->Ok_0;
                if idx + 1 < elements.len() {
                    lemma_variable_is_cut(path, 0, elements[idx + 1].text()[0]);
                } else {
                    lemma_last_variable_is_cut(path, 0);
                }
                let value = path.take(len);
                let rest = path.skip(len);
                let next = found.insert(name, PathValueView::of(value).entry());
                let (others, tail) = lemma_accepted_fits(elements, idx + 1, rest, next);
                let values = others.update(idx, value);
                lemma_filled_same(elements, values, others, idx + 1, next);
                assert(path =~= value + rest);
                let filled = filled_from(elements, values, idx + 1);
                assert(value + (filled + tail) =~= (value + filled) + tail);
                if idx + 1 == elements.len() {
                    assert(filled_from(elements, others, idx + 1) =~= Seq::empty());
                    assert(rest =~= tail);
                }
                assert forall|i: int|
                    idx <= i < elements.len() && elements[i] is Variable implies is_cut_out(
                    elements,
                    i,
                    #[trigger] values[i],
                    tail,
                ) by {
                    if i > idx {
                        assert(values[i] == others[i]);
                    }
                }
                (values, tail)
            },
        }
    }
}

/// A path which is accepted starts with the template, with some texts in the place of its
/// variables. None of these texts holds a slash, each one ends where the next element or a slash
/// begins, and the variables have the values of these texts.
pub proof fn law_accepted_path_fits_template(elements: Seq<PathElementView>, path: Seq<char>)
    ensures
        parsed_from(elements, 0, path, Map::empty()) matches Ok(all) ==> exists|
            values: Seq<Seq<char>>,
            tail: Seq<char>,
        | #[trigger]
            fits(elements, values, 0, path, tail) && filled_from(elements, values, 0).is_prefix_of(
                path,
            ) && all == bound_from(elements, values, 0, Map::empty()),
{
    if parsed_from(elements, 0, path, Map::empty()) is Ok {
        let (values, tail) = lemma_accepted_fits(elements, 0, path, Map::empty());
        let filled = filled_from(elements, values, 0);
        assert(path.take(filled.len() as int) =~= filled);
    }
}

/// The rest of a path behind a variable which nothing follows.
proof fn lemma_end_at_slash(path: Seq<char>, at: int, end: int)
    requires
        0 <= at <= end <= path.len(),
        end < path.len() ==> path[end] == '/',
        forall|i: int| 0 <= i < end ==> #[trigger] path[i] != '/',
    ensures
        slash_or_end(path, at) == end,
    decreases end - at,
{
    if at < end {
        lemma_end_at_slash(path, at + 1, end);
    }
}

#[verifier::spinoff_prover]
#[verifier::rlimit(30)]
proof fn lemma_fitting_is_accepted(
    elements: Seq<PathElementView>,
    values: Seq<Seq<char>>,
    idx: int,
    path: Seq<char>,
    tail: Seq<char>,
    found: Variables,
)
    requires
        take_turns(elements),
        0 <= idx <= elements.len(),
        fits(elements, values, idx, path, tail),
    ensures
        parsed_from(elements, idx, path, found) == Ok::<Variables, PathParserError>(
            bound_from(elements, values, idx, found),
        ),
    decreases elements.len() - idx,
{
    if idx < elements.len() {
        let rest = filled_from(elements, values, idx + 1) + tail;
        match elements[idx] {
            PathElementView::Fixed(text) => {
                assert(path =~= text + rest);
                assert(path.take(text.len() as int) =~= text);
                assert(path.skip(text.len() as int) =~= rest);
                lemma_fitting_is_accepted(elements, values, idx + 1, rest, tail, found);
            },
            PathElementView::Variable(name) => {
                let value = values[idx];
                assert(path =~= value + rest);
                assert(is_cut_out(elements, idx, value, tail));
                if idx + 1 < elements.len() {
                    let search = elements[idx + 1].text()[0];
                    assert(elements[idx + 1] is Fixed);
                    assert(rest[0] == search);
                    lemma_variable_end(value, rest, 0, search);
                } else {
                    assert(rest =~= tail);
                    assert forall|i: int| 0 <= i < value.len() implies #[trigger] path[i]
                        != '/' by {
                        assert(path[i] == value[i]);
                    }
                    lemma_end_at_slash(path, 0, value.len() as int);
                }
                assert(path.take(value.len() as int) =~= value);
                assert(path.skip(value.len() as int) =~= rest);
                let next = found.insert(name, PathValueView::of(value).entry());
                lemma_fitting_is_accepted(elements, values, idx + 1, rest, tail, next);
            },
        }
    }
}

/// A path which is the template with texts in the place of its variables is accepted, whatever is
/// behind it, and the variables have the values of these texts.
pub proof fn law_fitting_path_is_accepted(
    elements: Seq<PathElementView>,
    values: Seq<Seq<char>>,
    path: Seq<char>,
    tail: Seq<char>,
)
    requires
        is_template(elements),
        fits(elements, values, 0, path, tail),
    ensures
        parsed_from(elements, 0, path, Map::empty()) == Ok::<Variables, PathParserError>(
            bound_from(elements, values, 0, Map::empty()),
        ),
{
    lemma_fitting_is_accepted(elements, values, 0, path, tail, Map::empty());
}

/// The value of each variable, if no two variables have the same name.
proof fn lemma_each_is_bound(
    elements: Seq<PathElementView>,
    values: Seq<Seq<char>>,
    idx: int,
    found: Variables,
    name: Seq<char>,
)
    requires
        0 <= idx <= elements.len(),
        forall|i: int|
            idx <= i < elements.len() && elements[i] is Variable ==> (#[trigger] elements[i]).text()
                != name,
    ensures
        found.contains_key(name) <==> bound_from(elements, values, idx, found).contains_key(name),
        bound_from(elements, values, idx, found)[name] == found[name],
    decreases elements.len() - idx,
{
    if idx < elements.len() {
        match elements[idx] {
            PathElementView::Fixed(_) => {
                lemma_each_is_bound(elements, values, idx + 1, found, name);
            },
            PathElementView::Variable(key) => {
                assert(elements[idx].text() != name);
                lemma_each_is_bound(
                    elements,
                    values,
                    idx + 1,
                    found.insert(key, PathValueView::of(values[idx]).entry()),
                    name,
                );
            },
        }
    }
}

proof fn lemma_value_is_bound(
    elements: Seq<PathElementView>,
    values: Seq<Seq<char>>,
    idx: int,
    found: Variables,
    at: int,
)
    requires
        take_turns(elements),
        0 <= idx <= at < elements.len(),
        elements[at] is Variable,
    ensures
        bound_from(elements, values, idx, found).contains_key(elements[at].text()),
        bound_from(elements, values, idx, found)[elements[at].text()] == PathValueView::of(
            values[at],
        ).entry(),
    decreases elements.len() - idx,
{
    match elements[idx] {
        PathElementView::Fixed(_) => {
            lemma_value_is_bound(elements, values, idx + 1, found, at);
        },
        PathElementView::Variable(name) => {
            let next = found.insert(name, PathValueView::of(values[idx]).entry());
            if idx == at {
                assert forall|i: int|
                    idx + 1 <= i < elements.len() && elements[i] is Variable implies (
                #[trigger] elements[i]).text() != name by {
                    assert(i % 2 == 1);
                    assert(elements[at].text() != elements[i].text());
                }
                lemma_each_is_bound(elements, values, idx + 1, next, name);
            } else {
                lemma_value_is_bound(elements, values, idx + 1, next, at);
            }
        },
    }
}

/// In a path which was built from a template, each variable has the value of its own text, and
/// nothing else has a value.
#[verifier::spinoff_prover]
#[verifier::rlimit(30)]
pub proof fn law_each_variable_has_its_value(
    elements: Seq<PathElementView>,
    values: Seq<Seq<char>>,
    path: Seq<char>,
    tail: Seq<char>,
)
    requires
        is_template(elements),
        fits(elements, values, 0, path, tail),
    ensures
        parsed_from(elements, 0, path, Map::empty()) matches Ok(all) && {
            &&& forall|i: int|
                0 <= i < elements.len() && (#[trigger] elements[i]) is Variable ==> {
                    &&& all.contains_key(elements[i].text())
                    &&& all[elements[i].text()] == PathValueView::of(values[i]).entry()
                }
            &&& forall|name: Seq<char>| #[trigger]
                all.contains_key(name) ==> exists|i: int|
                    0 <= i < elements.len() && #[trigger] elements[i] == PathElementView::Variable(
                        name,
                    )
        },
{
    law_fitting_path_is_accepted(elements, values, path, tail);
    let all = bound_from(elements, values, 0, Map::empty());
    assert forall|i: int| 0 <= i < elements.len() && (#[trigger] elements[i]) is Variable implies {
        &&& all.contains_key(elements[i].text())
        &&& all[elements[i].text()] == PathValueView::of(values[i]).entry()
    } by {
        lemma_value_is_bound(elements, values, 0, Map::empty(), i);
    }
    assert forall|name: Seq<char>| #[trigger] all.contains_key(name) implies exists|i: int|
        0 <= i < elements.len() && #[trigger] elements[i] == PathElementView::Variable(name) by {
        if forall|i: int|
            0 <= i < elements.len() && elements[i] is Variable ==> (#[trigger] elements[i]).text()
                != name {
            lemma_each_is_bound(elements, values, 0, Map::empty(), name);
        } else {
            let i = choose|i: int|
                0 <= i < elements.len() && elements[i] is Variable && (
                #[trigger] elements[i]).text() == name;
            assert(elements[i] == PathElementView::Variable(name));
        }
    }
}

/// The words of JSON stand for themselves, and every other text is kept: as a number exactly if it
/// is one.
pub proof fn law_value_of_text(text: Seq<char>)
    ensures
        text == "null"@ <==> PathValueView::of(text) is Null,
        text == "true"@ <==> PathValueView::of(text) == PathValueView::Bool(true),
        text == "false"@ <==> PathValueView::of(text) == PathValueView::Bool(false),
        text != "null"@ && text != "true"@ && text != "false"@ ==> PathValueView::of(text) == (
        if crate::foreign::json_number(text) is Some {
            PathValueView::Number(text)
        } else {
            PathValueView::Text(text)
        }),
{
    reveal_strlit("null");
    reveal_strlit("true");
    reveal_strlit("false");
    assert("null"@[0] == 'n' && "true"@[0] == 't' && "false"@[0] == 'f');
}

proof fn lemma_variable_is_not_ended(path: Seq<char>, at: int, n: int, search: char)
    requires
        0 <= at <= n <= path.len(),
        forall|i: int| at <= i < n ==> #[trigger] path[i] != '/' && path[i] != search,
        n < path.len() ==> path[n] == '/' && search != '/',
    ensures
        variable_end(path, at, search) == Err::<int, PathParserError>(
            if n < path.len() {
                PathParserError::InvalidSlash
            } else {
                PathParserError::UnexpectedEndOfPath
            },
        ),
    decreases n - at,
{
    if at < n {
        lemma_variable_is_not_ended(path, at + 1, n, search);
    }
}

/// Why a path is refused: it ends while the template goes on, a static text is not there, or a
/// variable does not end with the begin of the text behind it, but with a slash or the end of the path.
pub proof fn law_why_a_path_is_refused(
    elements: Seq<PathElementView>,
    idx: int,
    path: Seq<char>,
    found: Variables,
    n: int,
)
    requires
        take_turns(elements),
        0 <= idx < elements.len(),
        0 <= n <= path.len(),
    ensures
        ({
            let ret = parsed_from(elements, idx, path, found);
            &&& path.len() == 0 ==> ret == Err::<Variables, PathParserError>(
                PathParserError::UnexpectedEndOfPath,
            )
            &&& path.len() > 0 && elements[idx] is Fixed && !elements[idx].text().is_prefix_of(path)
                ==> ret == Err::<Variables, PathParserError>(PathParserError::Internal)
            &&& path.len() > 0 && elements[idx] is Variable && idx + 1 < elements.len() && (forall|
                i: int,
            |
                0 <= i < n ==> #[trigger] path[i] != '/' && path[i] != elements[idx + 1].text()[0])
                ==> {
                &&& n == path.len() ==> ret == Err::<Variables, PathParserError>(
                    PathParserError::UnexpectedEndOfPath,
                )
                &&& n < path.len() && path[n] == '/' && elements[idx + 1].text()[0] != '/' ==> ret
                    == Err::<Variables, PathParserError>(PathParserError::InvalidSlash)
            }
        }),
{
    if path.len() > 0 && elements[idx] is Variable && idx + 1 < elements.len() {
        let search = elements[idx + 1].text()[0];
        if (forall|i: int| 0 <= i < n ==> #[trigger] path[i] != '/' && path[i] != search) && (n
            == path.len() || path[n] == '/' && search != '/') {
            lemma_variable_is_not_ended(path, 0, n, search);
        }
    }
}

} // verus!
