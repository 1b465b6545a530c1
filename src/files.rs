//! The static file server's own rules: which request paths name a file under
//! its root, and the content type of a file.
use vstd::prelude::*;
use vstd::string::StringSliceAdditionalSpecFns;
use vstd::utf8::*;
use crate::text::{bytes_contain, occurs_in, str_eq, str_of};

verus! {

/// Serves the files under one directory.
#[derive(Clone, Debug)]
pub struct FileServer {
    base_path: String,
}

impl View for FileServer {
    type V = Seq<char>;

    closed spec fn view(&self) -> Seq<char> {
        self.base_path@
    }
}

/// The request path, made relative to the root: refused when it holds `/.`
/// or `..`, or when it is not empty and does not start with `/`.
pub open spec fn relative_request_path(p: Seq<u8>) -> Option<Seq<u8>> {
    if occurs_in(seq![47u8, 46u8], p) || occurs_in(seq![46u8, 46u8], p) {
        None
    } else if p.len() == 0 {
        Some(p)
    } else if p[0] == 47 {
        Some(p.drop_first())
    } else {
        None
    }
}

impl FileServer {
    /// A server of the files under `base_path`.
    pub fn new(base_path: &str) -> (r: FileServer)
        ensures
            r@ == base_path@,
    {
        FileServer { base_path: base_path.to_owned() }
    }

    /// The directory files are served from.
    pub fn base_path(&self) -> (r: &str)
        ensures
            r@ == self@,
    {
        self.base_path.as_str()
    }

    /// The file a request path names, relative to the root, when the path
    /// is acceptable.
    pub fn relative_path<'a>(&self, path: &'a str) -> (r: Option<&'a str>)
        ensures
            match r {
                Some(s) => relative_request_path(path.spec_bytes()) == Some(s.spec_bytes()),
                None => relative_request_path(path.spec_bytes()) is None,
            },
    {
        let b = path.as_bytes();
        let mut dot_pair: Vec<u8> = Vec::new();
        dot_pair.push(47);
        dot_pair.push(46);
        let mut dots: Vec<u8> = Vec::new();
        dots.push(46);
        dots.push(46);
        assert(dot_pair@ =~= seq![47u8, 46u8]);
        assert(dots@ =~= seq![46u8, 46u8]);
        if bytes_contain(b, dot_pair.as_slice()) || bytes_contain(b, dots.as_slice()) {
            return None;
        }
        if b.len() == 0 {
            return Some(path);
        }
        if b[0] != 47 {
            return None;
        }
        proof {
            encode_utf8_valid_utf8(path@);
            crate::text::lemma_ascii_bounded_valid(b@, 1, b@.len() as int);
            assert(b@.subrange(1, b@.len() as int) =~= b@.drop_first());
        }
        Some(str_of(vstd::slice::slice_subrange(b, 1, b.len())))
    }
}

/// The extension `std::path::Path` gives the path: the text after the last
/// `.` of its file name, by that type's rules.
pub uninterp spec fn extension_of(path: Seq<char>) -> Option<Seq<char>>;

/// Relies on std::path::Path::extension; a `&str` path has a UTF-8
/// extension, which is returned as it is.
#[verifier::external_body]
fn path_extension(path: &str) -> (r: Option<&str>)
    ensures
        match r {
            Some(e) => extension_of(path@) == Some(e@),
            None => extension_of(path@) is None,
        },
{
    match std::path::Path::new(path).extension() {
        Some(e) => e.to_str(),
        None => None,
    }
}

/// The content type of a file with this extension.
pub open spec fn mime_of(ext: Option<Seq<char>>) -> Seq<char> {
    match ext {
        Some(e) => if e == "html"@ {
            "text/html"@
        } else if e == "js"@ {
            "text/javascript"@
        } else {
            "text/plain"@
        },
        None => "text/plain"@,
    }
}

/// The content type of a file with this extension: HTML, JavaScript, or
/// plain text for anything else.
pub fn mime_for_extension(ext: Option<&str>) -> (r: &'static str)
    ensures
        r@ == mime_of(
            match ext {
                Some(e) => Some(e@),
                None => None,
            },
        ),
{
    match ext {
        Some(e) => if str_eq(e, "html") {
            "text/html"
        } else if str_eq(e, "js") {
            "text/javascript"
        } else {
            "text/plain"
        },
        None => "text/plain",
    }
}

/// The content type of the file at `path`.
pub fn mime(path: &str) -> (r: &'static str)
    ensures
        r@ == mime_of(extension_of(path@)),
{
    mime_for_extension(path_extension(path))
}

} // verus!
