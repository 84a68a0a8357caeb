//! The request line: its grammar, its parser, and what the parser
//! guarantees.

use vstd::prelude::*;
use vstd::slice::{slice_subrange, slice_to_vec};
use vstd::string::StringSliceAdditionalSpecFns;

verus! {

/// Why a request could not be parsed.
#[derive(Clone, Copy, Debug, PartialEq, Eq, Structural)]
pub enum ParseError {
    /// The input holds no bytes at all.
    EmptyInput,
    /// The first line holds fewer than two tokens.
    MissingUri,
}

impl ParseError {
    /// The text that describes this error.
    pub open spec fn text(self) -> Seq<char> {
        match self {
            ParseError::EmptyInput => "Empty input provided"@,
            ParseError::MissingUri => "No uri were presented"@,
        }
    }

    /// Returns the text that describes this error.
    pub fn message(self) -> (text: &'static str)
        ensures
            text@ == self.text(),
    {
        match self {
            ParseError::EmptyInput => "Empty input provided",
            ParseError::MissingUri => "No uri were presented",
        }
    }
}

/// A parsed request as mathematical data.
pub struct RequestView {
    pub method: Seq<u8>,
    pub path: Seq<u8>,
}

/// What the first line of a request says: the method and the path.
#[derive(Debug, PartialEq, Eq)]
pub struct ParsedRequest {
    pub method: Vec<u8>,
    pub path: Vec<u8>,
}

impl View for ParsedRequest {
    type V = RequestView;

    open spec fn view(&self) -> RequestView {
        RequestView { method: self.method@, path: self.path@ }
    }
}

impl ParsedRequest {
    /// Returns the method token.
    pub fn method(&self) -> (method: &[u8])
        ensures
            method@ == self@.method,
    {
        self.method.as_slice()
    }

    /// Returns the path token.
    pub fn path(&self) -> (path: &[u8])
        ensures
            path@ == self@.path,
    {
        self.path.as_slice()
    }
}

/// Tells whether a byte is ASCII whitespace: space, tab, line feed, form
/// feed or carriage return.
pub open spec fn is_space(byte: u8) -> bool {
    byte == 32 || byte == 9 || byte == 10 || byte == 12 || byte == 13
}

/// The index at or behind `from` where the first CRLF starts, or the
/// length of `s` where none follows.
pub open spec fn line_end(s: Seq<u8>, from: int) -> int
    decreases s.len() - from,
{
    if from < 0 || from + 1 >= s.len() {
        s.len() as int
    } else if s[from] == 13 && s[from + 1] == 10 {
        from
    } else {
        line_end(s, from + 1)
    }
}

/// The first line: what precedes the first CRLF, or everything where
/// there is no CRLF.
pub open spec fn first_line(s: Seq<u8>) -> Seq<u8> {
    s.subrange(0, line_end(s, 0))
}

/// The index at or behind `from` of the first byte that is not
/// whitespace, or the length of `s` where only whitespace follows.
pub open spec fn skip_spaces(s: Seq<u8>, from: int) -> int
    decreases s.len() - from,
{
    if from < 0 || from >= s.len() {
        s.len() as int
    } else if !is_space(s[from]) {
        from
    } else {
        skip_spaces(s, from + 1)
    }
}

/// The index at or behind `from` of the first whitespace byte, or the
/// length of `s` where no whitespace follows.
pub open spec fn skip_token(s: Seq<u8>, from: int) -> int
    decreases s.len() - from,
{
    if from < 0 || from >= s.len() {
        s.len() as int
    } else if is_space(s[from]) {
        from
    } else {
        skip_token(s, from + 1)
    }
}

/// What a request says. Only the first line counts; its tokens are what
/// whitespace separates. The first token is the method and the second is
/// the path; what follows them is ignored.
pub open spec fn parsed(input: Seq<u8>) -> Result<RequestView, ParseError> {
    if input.len() == 0 {
        Err(ParseError::EmptyInput)
    } else {
        let line = first_line(input);
        let method_start = skip_spaces(line, 0);
        let method_end = skip_token(line, method_start);
        let path_start = skip_spaces(line, method_end);
        let path_end = skip_token(line, path_start);
        if path_start >= line.len() {
            Err(ParseError::MissingUri)
        } else {
            Ok(
                RequestView {
                    method: line.subrange(method_start, method_end),
                    path: line.subrange(path_start, path_end),
                },
            )
        }
    }
}

/// Tells whether `s` can stand as one token: it is not empty and holds no
/// whitespace.
pub open spec fn is_token(s: Seq<u8>) -> bool {
    s.len() > 0 && forall|i: int| 0 <= i < s.len() ==> !is_space(#[trigger] s[i])
}

/// `line_end` lies within the string, at a CRLF unless it is the end, and
/// no CRLF starts before it.
pub proof fn lemma_line_end(s: Seq<u8>, from: int)
    requires
        0 <= from <= s.len(),
    ensures
        from <= line_end(s, from) <= s.len(),
        line_end(s, from) < s.len() ==> s[line_end(s, from)] == 13 && s[line_end(s, from) + 1]
            == 10,
        forall|k: int|
            from <= k < line_end(s, from) && k + 1 < s.len() ==> !(s[k] == 13 && #[trigger] s[k
                + 1] == 10),
    decreases s.len() - from,
{
    if from + 1 < s.len() && !(s[from] == 13 && s[from + 1] == 10) {
        lemma_line_end(s, from + 1);
    }
}

/// `skip_spaces` stops at the first byte that is not whitespace.
pub proof fn lemma_skip_spaces(s: Seq<u8>, from: int)
    requires
        0 <= from <= s.len(),
    ensures
        from <= skip_spaces(s, from) <= s.len(),
        skip_spaces(s, from) < s.len() ==> !is_space(s[skip_spaces(s, from)]),
        forall|k: int| from <= k < skip_spaces(s, from) ==> is_space(#[trigger] s[k]),
    decreases s.len() - from,
{
    if from < s.len() && is_space(s[from]) {
        lemma_skip_spaces(s, from + 1);
    }
}

/// `skip_token` stops at the first whitespace byte.
pub proof fn lemma_skip_token(s: Seq<u8>, from: int)
    requires
        0 <= from <= s.len(),
    ensures
        from <= skip_token(s, from) <= s.len(),
        skip_token(s, from) < s.len() ==> is_space(s[skip_token(s, from)]),
        forall|k: int| from <= k < skip_token(s, from) ==> !is_space(#[trigger] s[k]),
    decreases s.len() - from,
{
    if from < s.len() && !is_space(s[from]) {
        lemma_skip_token(s, from + 1);
    }
}

/// Tells whether every byte of `s` is whitespace.
pub open spec fn is_blank(s: Seq<u8>) -> bool {
    forall|i: int| 0 <= i < s.len() ==> is_space(#[trigger] s[i])
}

/// Tells whether `line` is made of these parts, in this order: whitespace
/// or nothing, the method, some whitespace, the path, and then either
/// nothing or whitespace and whatever follows it.
pub open spec fn made_of(
    line: Seq<u8>,
    lead: Seq<u8>,
    method: Seq<u8>,
    gap: Seq<u8>,
    path: Seq<u8>,
    rest: Seq<u8>,
) -> bool {
    &&& line == lead + method + gap + path + rest
    &&& is_blank(lead)
    &&& is_token(method)
    &&& gap.len() > 0 && is_blank(gap)
    &&& is_token(path)
    &&& rest.len() == 0 || is_space(rest[0])
}

/// Tells whether `line` starts with the tokens `method` and `path`.
pub open spec fn starts_with_tokens(line: Seq<u8>, method: Seq<u8>, path: Seq<u8>) -> bool {
    exists|lead: Seq<u8>, gap: Seq<u8>, rest: Seq<u8>|
        #[trigger] made_of(line, lead, method, gap, path, rest)
}

/// A line that is made of the parts of a request line has its tokens
/// found where the parts say.
proof fn lemma_tokens_of_parts(
    line: Seq<u8>,
    lead: Seq<u8>,
    method: Seq<u8>,
    gap: Seq<u8>,
    path: Seq<u8>,
    rest: Seq<u8>,
)
    requires
        made_of(line, lead, method, gap, path, rest),
    ensures
        ({
            let a = lead.len() as int;
            let b = a + method.len();
            let c = b + gap.len();
            let d = c + path.len();
            &&& skip_spaces(line, 0) == a
            &&& skip_token(line, a) == b
            &&& skip_spaces(line, b) == c
            &&& skip_token(line, c) == d
            &&& line.subrange(a, b) == method
            &&& line.subrange(c, d) == path
        }),
{
    let a = lead.len() as int;
    let b = a + method.len();
    let c = b + gap.len();
    let d = c + path.len();
    assert(rest.len() > 0 ==> line[d] == rest[0]);
    lemma_skip_spaces(line, 0);
    lemma_skip_token(line, a);
    lemma_skip_spaces(line, b);
    lemma_skip_token(line, c);
}

/// Parsing succeeds with a method and a path exactly if the first line
/// starts with these two tokens.
pub proof fn lemma_parsed_is_first_two_tokens(input: Seq<u8>, method: Seq<u8>, path: Seq<u8>)
    requires
        input.len() > 0,
    ensures
        parsed(input) == Ok::<RequestView, ParseError>(RequestView { method, path })
            <==> starts_with_tokens(first_line(input), method, path),
{
    let line = first_line(input);
    if starts_with_tokens(line, method, path) {
        let (lead, gap, rest) = choose|lead: Seq<u8>, gap: Seq<u8>, rest: Seq<u8>|
            #[trigger] made_of(line, lead, method, gap, path, rest);
        lemma_tokens_of_parts(line, lead, method, gap, path, rest);
    }
    if parsed(input) == Ok::<RequestView, ParseError>(RequestView { method, path }) {
        let a = skip_spaces(line, 0);
        let b = skip_token(line, a);
        let c = skip_spaces(line, b);
        let d = skip_token(line, c);
        lemma_skip_spaces(line, 0);
        lemma_skip_token(line, a);
        lemma_skip_spaces(line, b);
        lemma_skip_token(line, c);
        let lead = line.subrange(0, a);
        let gap = line.subrange(b, c);
        let rest = line.subrange(d, line.len() as int);
        assert(line =~= lead + method + gap + path + rest);
        assert(is_token(method) && is_token(path));
        assert(made_of(line, lead, method, gap, path, rest));
    }
}

/// Parsing fails for want of a path exactly if the input is not empty and
/// its first line does not start with two tokens.
pub proof fn lemma_missing_uri_is_fewer_than_two_tokens(input: Seq<u8>)
    ensures
        parsed(input) == Err::<RequestView, ParseError>(ParseError::MissingUri) <==> input.len() > 0
            && forall|method: Seq<u8>, path: Seq<u8>|
                !#[trigger] starts_with_tokens(first_line(input), method, path),
{
    if input.len() > 0 {
        assert forall|method: Seq<u8>, path: Seq<u8>|
            parsed(input) == Err::<RequestView, ParseError>(
                ParseError::MissingUri,
            ) implies !#[trigger] starts_with_tokens(first_line(input), method, path) by {
            lemma_parsed_is_first_two_tokens(input, method, path);
        }
        if parsed(input).is_ok() {
            let request = parsed(input).unwrap();
            lemma_parsed_is_first_two_tokens(input, request.method, request.path);
        }
    }
}

/// A request line of a method, one space and a path is parsed into just
/// that method and that path, whatever follows the path after whitespace
/// or a line end.
pub proof fn lemma_parse_request_line(method: Seq<u8>, path: Seq<u8>, rest: Seq<u8>)
    requires
        is_token(method),
        is_token(path),
        rest.len() == 0 || is_space(rest[0]),
    ensures
        parsed(method + seq![32u8] + path + rest) == Ok::<RequestView, ParseError>(
            RequestView { method, path },
        ),
{
    let input = method + seq![32u8] + path + rest;
    let m = method.len() as int;
    let n = m + 1 + path.len();
    lemma_line_end(input, 0);
    let line = first_line(input);
    assert(line.len() > n ==> line[n] == rest[0]);
    lemma_skip_token(line, 0);
    lemma_skip_spaces(line, m);
    lemma_skip_token(line, m + 1);
    assert(line.subrange(0, m) =~= method);
    assert(line.subrange(m + 1, n) =~= path);
}

/// A request line of method, path and protocol version, separated by
/// single spaces, is parsed into just that method and that path.
pub proof fn lemma_parse_versioned_request_line(method: Seq<u8>, path: Seq<u8>)
    requires
        is_token(method),
        is_token(path),
    ensures
        parsed(method + seq![32u8] + path + seq![32u8] + "HTTP/1.1".spec_bytes()) == Ok::<
            RequestView,
            ParseError,
        >(RequestView { method, path }),
{
    let rest = seq![32u8] + "HTTP/1.1".spec_bytes();
    lemma_parse_request_line(method, path, rest);
    assert(method + seq![32u8] + path + seq![32u8] + "HTTP/1.1".spec_bytes() =~= method
        + seq![32u8] + path + rest);
}

/// Empty input is refused as empty.
pub proof fn lemma_parse_empty_input()
    ensures
        parsed(Seq::<u8>::empty()) == Err::<RequestView, ParseError>(ParseError::EmptyInput),
{
}

/// A first line that consists of one token lacks the path, whatever the
/// lines behind it hold.
pub proof fn lemma_parse_single_token(token: Seq<u8>, rest: Seq<u8>)
    requires
        is_token(token),
        rest.len() == 0 || (rest.len() >= 2 && rest[0] == 13 && rest[1] == 10),
    ensures
        parsed(token + rest) == Err::<RequestView, ParseError>(ParseError::MissingUri),
{
    let input = token + rest;
    let n = token.len() as int;
    assert(rest.len() > 0 ==> input[n] == 13 && input[n + 1] == 10);
    lemma_line_end(input, 0);
    let line = first_line(input);
    lemma_skip_token(line, 0);
}

/// Tells whether a byte is ASCII whitespace.
pub fn is_whitespace(byte: u8) -> (yes: bool)
    ensures
        yes == is_space(byte),
{
    byte == 32 || byte == 9 || byte == 10 || byte == 12 || byte == 13
}

/// Returns the index where the first line of `input` ends.
fn find_line_end(input: &[u8]) -> (end: usize)
    ensures
        end == line_end(input@, 0),
        end <= input@.len(),
{
    let mut i: usize = 0;
    while input.len() - i > 1
        invariant
            i <= input@.len(),
            line_end(input@, 0) == line_end(input@, i as int),
        decreases input@.len() - i,
    {
        if input[i] == 13 && input[i + 1] == 10 {
            return i;
        }
        i += 1;
    }
    input.len()
}

/// Returns the index of the first byte at or behind `from` that is not
/// whitespace.
fn spaces_end(line: &[u8], from: usize) -> (end: usize)
    requires
        from <= line@.len(),
    ensures
        end == skip_spaces(line@, from as int),
        from <= end <= line@.len(),
{
    let mut i: usize = from;
    while i < line.len() && is_whitespace(line[i])
        invariant
            from <= i <= line@.len(),
            skip_spaces(line@, from as int) == skip_spaces(line@, i as int),
        decreases line@.len() - i,
    {
        i += 1;
    }
    i
}

/// Returns the index of the first whitespace byte at or behind `from`.
fn token_end(line: &[u8], from: usize) -> (end: usize)
    requires
        from <= line@.len(),
    ensures
        end == skip_token(line@, from as int),
        from <= end <= line@.len(),
{
    let mut i: usize = from;
    while i < line.len() && !is_whitespace(line[i])
        invariant
            from <= i <= line@.len(),
            skip_token(line@, from as int) == skip_token(line@, i as int),
        decreases line@.len() - i,
    {
        i += 1;
    }
    i
}

/// Parses the bytes of a request.
///
/// Fails with `EmptyInput` where `input` is empty, and with `MissingUri`
/// where its first line holds fewer than two tokens.
pub fn parse_request_bytes(input: &[u8]) -> (result: Result<ParsedRequest, ParseError>)
    ensures
        match result {
            Ok(request) => parsed(input@) == Ok::<RequestView, ParseError>(request@),
            Err(error) => parsed(input@) == Err::<RequestView, ParseError>(error),
        },
{
    if input.len() == 0 {
        return Err(ParseError::EmptyInput);
    }
    let line = slice_subrange(input, 0, find_line_end(input));
    let method_start = spaces_end(line, 0);
    let method_end = token_end(line, method_start);
    let path_start = spaces_end(line, method_end);
    let path_end = token_end(line, path_start);
    if path_start >= line.len() {
        return Err(ParseError::MissingUri);
    }
    Ok(
        ParsedRequest {
            method: slice_to_vec(slice_subrange(line, method_start, method_end)),
            path: slice_to_vec(slice_subrange(line, path_start, path_end)),
        },
    )
}

/// Parses the text of a request, byte for byte.
pub fn parse_request(string: &str) -> (result: Result<ParsedRequest, ParseError>)
    ensures
        match result {
            Ok(request) => parsed(string.spec_bytes()) == Ok::<RequestView, ParseError>(request@),
            Err(error) => parsed(string.spec_bytes()) == Err::<RequestView, ParseError>(error),
        },
{
    parse_request_bytes(string.as_bytes())
}

} // verus!
