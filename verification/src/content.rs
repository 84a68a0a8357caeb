//! Content: the kinds of files that have a known media type, and the
//! mapping of request paths to files below the content root.

use crate::text::{bytes_eq, lemma_ascii_bytes};
use vstd::prelude::*;
use vstd::slice::{slice_subrange, slice_to_vec};
use vstd::string::StringSliceAdditionalSpecFns;

verus! {

/// The kind of a file, told by its extension. A file of any other
/// extension, or of none, has no kind.
#[derive(Clone, Copy, Debug, PartialEq, Eq, Structural)]
pub enum ContentType {
    /// `html`
    Html,
    /// `css`
    Css,
    /// `js`
    Js,
    /// `png`
    Png,
    /// `jpg`
    Jpg,
    /// `ico`
    Ico,
}

impl ContentType {
    /// The canonical media type of this kind, as text.
    pub open spec fn media_type(self) -> Seq<char> {
        match self {
            ContentType::Html => "text/html"@,
            ContentType::Css => "text/css"@,
            ContentType::Js => "application/javascript"@,
            ContentType::Png => "image/png"@,
            ContentType::Jpg => "image/jpeg"@,
            ContentType::Ico => "image/x-icon"@,
        }
    }

    /// The canonical media type of this kind, as bytes.
    pub open spec fn media_type_bytes(self) -> Seq<u8> {
        vstd::utf8::encode_utf8(self.media_type())
    }

    /// Tells whether this kind is one of the image kinds.
    pub open spec fn image(self) -> bool {
        self == ContentType::Png || self == ContentType::Jpg || self == ContentType::Ico
    }

    /// Tells whether this kind is one of the image kinds.
    pub fn is_image(self) -> (yes: bool)
        ensures
            yes == self.image(),
    {
        match self {
            ContentType::Png | ContentType::Jpg | ContentType::Ico => true,
            _ => false,
        }
    }

    /// Returns the canonical media type of this kind.
    pub fn as_str(self) -> (text: &'static str)
        ensures
            text@ == self.media_type(),
    {
        match self {
            ContentType::Html => "text/html",
            ContentType::Css => "text/css",
            ContentType::Js => "application/javascript",
            ContentType::Png => "image/png",
            ContentType::Jpg => "image/jpeg",
            ContentType::Ico => "image/x-icon",
        }
    }
}

/// The byte that separates the segments of a path.
pub const SLASH: u8 = 47;

/// The byte that precedes a file extension.
pub const DOT: u8 = 46;

/// The index of the last `byte` in `s`, or -1 where there is none.
pub open spec fn last_index_of(s: Seq<u8>, byte: u8) -> int
    decreases s.len(),
{
    if s.len() == 0 {
        -1
    } else if s.last() == byte {
        s.len() - 1
    } else {
        last_index_of(s.drop_last(), byte)
    }
}

/// `last_index_of` is an index of `byte`, and `byte` does not occur
/// behind it.
pub proof fn lemma_last_index_of(s: Seq<u8>, byte: u8)
    ensures
        -1 <= last_index_of(s, byte) < s.len(),
        last_index_of(s, byte) >= 0 ==> s[last_index_of(s, byte)] == byte,
        forall|k: int| last_index_of(s, byte) < k < s.len() ==> s[k] != byte,
    decreases s.len(),
{
    if s.len() > 0 && s.last() != byte {
        lemma_last_index_of(s.drop_last(), byte);
        assert forall|k: int| last_index_of(s, byte) < k < s.len() implies s[k] != byte by {
            if k < s.len() - 1 {
                assert(s[k] == s.drop_last()[k]);
            }
        }
    }
}

/// The final segment of a path: what follows its last separator, or the
/// whole path where it has none.
pub open spec fn final_segment(path: Seq<u8>) -> Seq<u8> {
    path.subrange(last_index_of(path, SLASH) + 1, path.len() as int)
}

/// The extension of a path: what follows the last dot of its final
/// segment. A final segment without a dot has no extension.
pub open spec fn extension(path: Seq<u8>) -> Option<Seq<u8>> {
    let segment = final_segment(path);
    let dot = last_index_of(segment, DOT);
    if dot < 0 {
        None
    } else {
        Some(segment.subrange(dot + 1, segment.len() as int))
    }
}

/// The kind that an extension stands for. Extensions are matched as they
/// are written, in lower case.
pub open spec fn kind_of_extension(ext: Seq<u8>) -> Option<ContentType> {
    if ext == "html".spec_bytes() {
        Some(ContentType::Html)
    } else if ext == "css".spec_bytes() {
        Some(ContentType::Css)
    } else if ext == "js".spec_bytes() {
        Some(ContentType::Js)
    } else if ext == "png".spec_bytes() {
        Some(ContentType::Png)
    } else if ext == "jpg".spec_bytes() {
        Some(ContentType::Jpg)
    } else if ext == "ico".spec_bytes() {
        Some(ContentType::Ico)
    } else {
        None
    }
}

/// The kind of the file that a path names, by its extension.
pub open spec fn kind_of_path(path: Seq<u8>) -> Option<ContentType> {
    match extension(path) {
        Some(ext) => kind_of_extension(ext),
        None => None,
    }
}

/// The six recognized extensions differ from one another, so each stands
/// for its own kind.
pub proof fn lemma_extension_kinds()
    ensures
        kind_of_extension("html".spec_bytes()) == Some(ContentType::Html),
        kind_of_extension("css".spec_bytes()) == Some(ContentType::Css),
        kind_of_extension("js".spec_bytes()) == Some(ContentType::Js),
        kind_of_extension("png".spec_bytes()) == Some(ContentType::Png),
        kind_of_extension("jpg".spec_bytes()) == Some(ContentType::Jpg),
        kind_of_extension("ico".spec_bytes()) == Some(ContentType::Ico),
{
    reveal_strlit("html");
    reveal_strlit("css");
    reveal_strlit("js");
    reveal_strlit("png");
    reveal_strlit("jpg");
    reveal_strlit("ico");
    lemma_ascii_bytes("html");
    lemma_ascii_bytes("css");
    lemma_ascii_bytes("js");
    lemma_ascii_bytes("png");
    lemma_ascii_bytes("jpg");
    lemma_ascii_bytes("ico");
    assert("css".spec_bytes()[0] == 'c' as u8);
    assert("png".spec_bytes()[0] == 'p' as u8);
    assert("jpg".spec_bytes()[0] == 'j' as u8);
}

/// An extension stands for an image kind exactly if it is `png`, `jpg` or
/// `ico`.
pub proof fn lemma_image_extensions(ext: Seq<u8>)
    ensures
        (kind_of_extension(ext).is_some() && kind_of_extension(ext).unwrap().image()) <==> (ext
            == "png".spec_bytes() || ext == "jpg".spec_bytes() || ext == "ico".spec_bytes()),
{
    lemma_extension_kinds();
}

impl ContentType {
    /// Returns the kind that an extension stands for.
    pub fn from_extension(ext: &[u8]) -> (kind: Option<ContentType>)
        ensures
            kind == kind_of_extension(ext@),
    {
        if bytes_eq(ext, "html".as_bytes()) {
            Some(ContentType::Html)
        } else if bytes_eq(ext, "css".as_bytes()) {
            Some(ContentType::Css)
        } else if bytes_eq(ext, "js".as_bytes()) {
            Some(ContentType::Js)
        } else if bytes_eq(ext, "png".as_bytes()) {
            Some(ContentType::Png)
        } else if bytes_eq(ext, "jpg".as_bytes()) {
            Some(ContentType::Jpg)
        } else if bytes_eq(ext, "ico".as_bytes()) {
            Some(ContentType::Ico)
        } else {
            None
        }
    }

    /// Returns the kind of the file that a path names, by its extension.
    pub fn of_path(path: &[u8]) -> (kind: Option<ContentType>)
        ensures
            kind == kind_of_path(path@),
    {
        match extension_of(path) {
            Some(ext) => ContentType::from_extension(ext),
            None => None,
        }
    }
}

/// Returns the extension of a path.
pub fn extension_of(path: &[u8]) -> (ext: Option<&[u8]>)
    ensures
        ext.is_some() == extension(path@).is_some(),
        ext.is_some() ==> ext.unwrap()@ == extension(path@).unwrap(),
{
    let len = path.len();
    let mut i: usize = len;
    while i > 0
        invariant
            len == path@.len(),
            i <= len,
            forall|k: int| i <= k < len ==> path@[k] != DOT && path@[k] != SLASH,
        decreases i,
    {
        let byte = path[i - 1];
        if byte == DOT {
            let ext = slice_subrange(path, i, len);
            proof {
                lemma_extension_at(path@, i - 1);
            }
            return Some(ext);
        }
        if byte == SLASH {
            proof {
                lemma_no_extension(path@, i as int);
            }
            return None;
        }
        i -= 1;
    }
    proof {
        lemma_no_extension(path@, 0);
    }
    None
}

/// A dot with neither dot nor separator behind it starts the extension.
proof fn lemma_extension_at(path: Seq<u8>, dot: int)
    requires
        0 <= dot < path.len(),
        path[dot] == DOT,
        forall|k: int| dot < k < path.len() ==> path[k] != DOT && path[k] != SLASH,
    ensures
        extension(path) == Some(path.subrange(dot + 1, path.len() as int)),
{
    lemma_last_index_of(path, SLASH);
    let segment = final_segment(path);
    lemma_last_index_of(segment, DOT);
    let at = dot - (last_index_of(path, SLASH) + 1);
    assert(segment[at] == DOT);
}

/// A final segment that starts at `start` and holds no dot has no
/// extension.
proof fn lemma_no_extension(path: Seq<u8>, start: int)
    requires
        0 <= start <= path.len(),
        start > 0 ==> path[start - 1] == SLASH,
        forall|k: int| start <= k < path.len() ==> path[k] != DOT && path[k] != SLASH,
    ensures
        extension(path).is_none(),
{
    lemma_last_index_of(path, SLASH);
    lemma_last_index_of(final_segment(path), DOT);
}

/// The document that is served for the root path.
pub open spec fn default_document() -> Seq<u8> {
    "index.html".spec_bytes()
}

/// The document that is served in place of absent content.
pub open spec fn not_found_document() -> Seq<u8> {
    "404.html".spec_bytes()
}

/// The path below the content root that a request path names: the default
/// document for the root path `/`, else the request path as it is, without
/// its leading separator where it has one.
pub open spec fn resolved(path: Seq<u8>) -> Seq<u8> {
    if path == seq![SLASH] {
        default_document()
    } else if path.len() > 0 && path[0] == SLASH {
        path.subrange(1, path.len() as int)
    } else {
        path
    }
}

/// Both fixed documents are HTML by their names.
pub proof fn lemma_fixed_documents_are_html()
    ensures
        kind_of_path(default_document()) == Some(ContentType::Html),
        kind_of_path(not_found_document()) == Some(ContentType::Html),
{
    reveal_strlit("index.html");
    reveal_strlit("404.html");
    reveal_strlit("html");
    lemma_ascii_bytes("index.html");
    lemma_ascii_bytes("404.html");
    lemma_ascii_bytes("html");
    let index = "index.html".spec_bytes();
    let missing = "404.html".spec_bytes();
    lemma_extension_at(index, 5);
    lemma_extension_at(missing, 3);
    assert(index.subrange(6, 10) =~= "html".spec_bytes());
    assert(missing.subrange(4, 8) =~= "html".spec_bytes());
}

/// Maps a request path to a path below the content root.
pub fn resolve(path: &[u8]) -> (file: Vec<u8>)
    ensures
        file@ == resolved(path@),
{
    if path.len() == 1 && path[0] == SLASH {
        assert(path@ =~= seq![SLASH]);
        slice_to_vec("index.html".as_bytes())
    } else if path.len() > 0 && path[0] == SLASH {
        slice_to_vec(slice_subrange(path, 1, path.len()))
    } else {
        slice_to_vec(path)
    }
}

/// Returns the name of the document that is served in place of absent
/// content.
pub fn not_found_path() -> (file: Vec<u8>)
    ensures
        file@ == not_found_document(),
{
    slice_to_vec("404.html".as_bytes())
}

} // verus!
