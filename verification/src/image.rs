use vstd::prelude::*;
use vstd::string::*;
use rustc_serialize::base64::{ToBase64, MIME};

verus! {

/// An image attached to a project. `data` holds the image encoded as a
/// `data:` URL; `name` and `path` describe where it was picked from.
#[derive(Clone)]
pub struct Image {
    pub alt: String,
    pub data: String,
    pub name: String,
    pub path: String,
    pub is_upload: bool,
}

pub ghost struct ImageView {
    pub alt: Seq<char>,
    pub data: Seq<char>,
    pub name: Seq<char>,
    pub path: Seq<char>,
    pub is_upload: bool,
}

impl View for Image {
    type V = ImageView;

    open spec fn view(&self) -> ImageView {
        ImageView {
            alt: self.alt@,
            data: self.data@,
            name: self.name@,
            path: self.path@,
            is_upload: self.is_upload,
        }
    }
}

impl PartialEq for Image {
    fn eq(&self, other: &Self) -> (r: bool) {
        self.data == other.data && self.alt == other.alt
    }
}

impl vstd::std_specs::cmp::PartialEqSpecImpl for Image {
    open spec fn obeys_eq_spec() -> bool {
        true
    }

    open spec fn eq_spec(&self, other: &Image) -> bool {
        self.data@ == other.data@ && self.alt@ == other.alt@
    }
}

impl Default for Image {
    fn default() -> (r: Self)
        ensures
            r@ == (ImageView {
                alt: "No image for project"@,
                data: "/proxy-image.jpg"@,
                name: ""@,
                path: ""@,
                is_upload: false,
            }),
    {
        let r = Self {
            data: String::from_str("/proxy-image.jpg"),
            alt: String::from_str("No image for project"),
            is_upload: false,
            name: String::from_str(""),
            path: String::from_str(""),
        };
        r
    }
}

impl Image {
    /// The one-line rendering of the record's identifying fields, as a
    /// diagnostics view prints it.
    pub fn debug_string(&self) -> (r: String)
        ensures
            r@ == "data: "@ + self.data@ + ", alt: "@ + self.alt@,
    {
        let mut r = String::from_str("data: ");
        r.append(self.data.as_str());
        r.append(", alt: ");
        r.append(self.alt.as_str());
        proof {
            assert(r@ =~= "data: "@ + self.data@ + ", alt: "@ + self.alt@);
        }
        r
    }

    /// A blank image record: like the default one, but with empty
    /// `data` and `alt` fields.
    pub fn new() -> (r: Self)
        ensures
            r@ == (ImageView {
                alt: ""@,
                data: ""@,
                name: ""@,
                path: ""@,
                is_upload: false,
            }),
    {
        let mut r = Self::default();
        r.data = String::new();
        r.alt = String::new();
        proof {
            assert(r@.data =~= ""@) by {
                reveal_strlit("");
            }
            assert(r@.alt =~= ""@) by {
                reveal_strlit("");
            }
        }
        r
    }
}

/// Character-by-character string comparison.
fn str_eq(a: &str, b: &str) -> (r: bool)
    ensures
        r == (a@ == b@),
{
    let n = a.unicode_len();
    if n != b.unicode_len() {
        return false;
    }
    let mut i: usize = 0;
    while i < n
        invariant
            n == a@.len(),
            n == b@.len(),
            i <= n,
            forall|k: int| 0 <= k < i ==> a@[k] == b@[k],
        decreases n - i,
    {
        if a.get_char(i) != b.get_char(i) {
            return false;
        }
        i = i + 1;
    }
    proof {
        assert(a@ =~= b@);
    }
    true
}

/// The media type that corresponds to a file extension; the empty string for
/// a format the application does not handle.
pub open spec fn spec_file_type(ext: Seq<char>) -> Seq<char> {
    if ext == "jpg"@ || ext == "jpeg"@ {
        "jpeg"@
    } else if ext == "png"@ {
        "png"@
    } else {
        ""@
    }
}

pub fn file_type(extension: &str) -> (r: &str)
    ensures
        r@ == spec_file_type(extension@),
{
    if str_eq(extension, "jpg") || str_eq(extension, "jpeg") {
        "jpeg"
    } else if str_eq(extension, "png") {
        "png"
    } else {
        ""
    }
}

/// The text with every carriage-return/line-feed pair removed, scanning
/// left to right.
pub open spec fn strip_crlf_spec(s: Seq<char>) -> Seq<char>
    decreases s.len(),
{
    if s.len() >= 2 && s[0] == '\r' && s[1] == '\n' {
        strip_crlf_spec(s.subrange(2, s.len() as int))
    } else if s.len() >= 1 {
        seq![s[0]] + strip_crlf_spec(s.subrange(1, s.len() as int))
    } else {
        Seq::empty()
    }
}

/// Remove every line break that the MIME base64 encoding inserts.
fn strip_crlf(s: &str) -> (r: String)
    ensures
        r@ == strip_crlf_spec(s@),
{
    let n = s.unicode_len();
    let mut r = String::new();
    let mut i: usize = 0;
    proof {
        assert(s@.subrange(0, n as int) =~= s@);
        assert(r@ + strip_crlf_spec(s@) =~= strip_crlf_spec(s@));
    }
    while i < n
        invariant
            n == s@.len(),
            i <= n,
            strip_crlf_spec(s@) == r@ + strip_crlf_spec(s@.subrange(i as int, n as int)),
        decreases n - i,
    {
        let ghost t = s@.subrange(i as int, n as int);
        let c = s.get_char(i);
        if c == '\r' && i + 1 < n && s.get_char(i + 1) == '\n' {
            proof {
                assert(t.subrange(2, t.len() as int) =~= s@.subrange(i + 2, n as int));
                assert(strip_crlf_spec(t) == strip_crlf_spec(s@.subrange(i + 2, n as int)));
            }
            i = i + 2;
        } else {
            let piece = s.substring_char(i, i + 1);
            proof {
                let a = seq![s@[i as int]];
                let b = strip_crlf_spec(s@.subrange(i + 1, n as int));
                assert(t.subrange(1, t.len() as int) =~= s@.subrange(i + 1, n as int));
                assert(strip_crlf_spec(t) == a + b);
                assert(piece@ =~= a);
                assert((r@ + a) + b =~= r@ + (a + b));
            }
            r.append(piece);
            i = i + 1;
        }
    }
    proof {
        assert(s@.subrange(n as int, n as int) =~= Seq::<char>::empty());
        assert(r@ + strip_crlf_spec(s@.subrange(n as int, n as int)) =~= r@);
    }
    r
}

/// The file extension: the part of the final path component that follows
/// its last dot, if the component has one.
pub open spec fn spec_extension(s: Seq<char>) -> Option<Seq<char>>
    decreases s.len(),
{
    if s.len() == 0 {
        None
    } else {
        let c = s[s.len() - 1];
        if c == '.' {
            Some(Seq::<char>::empty())
        } else if c == '/' {
            None
        } else {
            match spec_extension(s.subrange(0, s.len() - 1)) {
                None => None,
                Some(e) => Some(e.push(c)),
            }
        }
    }
}

proof fn lemma_extension_found(s: Seq<char>, d: int)
    requires
        0 <= d < s.len(),
        s[d] == '.',
        forall|j: int| d < j < s.len() ==> s[j] != '.' && s[j] != '/',
    ensures
        spec_extension(s) == Some(s.subrange(d + 1, s.len() as int)),
    decreases s.len(),
{
    if d == s.len() - 1 {
        assert(s.subrange(d + 1, s.len() as int) =~= Seq::<char>::empty());
    } else {
        let s1 = s.subrange(0, s.len() - 1);
        lemma_extension_found(s1, d);
        assert(s1.subrange(d + 1, s1.len() as int).push(s[s.len() - 1]) =~= s.subrange(
            d + 1,
            s.len() as int,
        ));
    }
}

proof fn lemma_extension_none(s: Seq<char>, k: int)
    requires
        0 <= k <= s.len(),
        forall|j: int| k <= j < s.len() ==> s[j] != '.',
        k == 0 || s[k - 1] == '/',
    ensures
        spec_extension(s) is None,
    decreases s.len(),
{
    if s.len() == 0 {
    } else if k == s.len() {
    } else if s[s.len() - 1] == '/' {
    } else {
        lemma_extension_none(s.subrange(0, s.len() - 1), k);
    }
}

/// The extension of a path, as executable code.
fn path_extension(path: &str) -> (r: Option<String>)
    ensures
        r matches Some(e) ==> spec_extension(path@) == Some(e@),
        r is None ==> spec_extension(path@) is None,
{
    let n = path.unicode_len();
    let mut i: usize = n;
    while i > 0
        invariant
            n == path@.len(),
            i <= n,
            forall|j: int| i <= j < n ==> path@[j] != '.' && path@[j] != '/',
        decreases i,
    {
        let c = path.get_char(i - 1);
        if c == '.' {
            let e = path.substring_char(i, n);
            proof {
                lemma_extension_found(path@, i - 1);
            }
            return Some(String::from_str(e));
        }
        if c == '/' {
            proof {
                lemma_extension_none(path@, i as int);
            }
            return None;
        }
        i = i - 1;
    }
    proof {
        lemma_extension_none(path@, 0);
    }
    None
}

/// What the MIME base64 encoding of a byte sequence is; the encoding is a
/// function of the bytes alone.
pub uninterp spec fn base64_mime_of(bytes: Seq<u8>) -> Seq<char>;

/// Relies on rustc_serialize's `ToBase64::to_base64` with the `MIME`
/// configuration, which encodes the bytes (with line breaks every 76
/// characters) and depends on nothing but them.
#[verifier::external_body]
fn to_base64_mime(bytes: &Vec<u8>) -> (r: String)
    ensures
        r@ == base64_mime_of(bytes@),
{
    bytes.to_base64(MIME)
}

/// The `data:` URL that encodes the given bytes, labelled with the media
/// type taken from the path's file extension.
pub open spec fn spec_data_url(bytes: Seq<u8>, path: Seq<char>) -> Seq<char> {
    "data:image/"@ + spec_file_type(spec_extension(path).unwrap()) + ";base64,"@
        + strip_crlf_spec(base64_mime_of(bytes))
}

pub fn base64_from_vec(vec: Vec<u8>, path: &str) -> (r: String)
    requires
        spec_extension(path@) is Some,
    ensures
        r@ == spec_data_url(vec@, path@),
{
    let b64 = to_base64_mime(&vec);
    let stripped = strip_crlf(b64.as_str());
    let ext = path_extension(path).unwrap();
    let ft = file_type(ext.as_str());
    let mut r = String::from_str("data:image/");
    r.append(ft);
    r.append(";base64,");
    r.append(stripped.as_str());
    proof {
        assert(r@ =~= spec_data_url(vec@, path@));
    }
    r
}

/// The image record for a file picked from disk: named and located by the
/// picker, its data the `data:` URL of the file's bytes.
pub fn picked_image(name: String, path: String, bytes: Vec<u8>) -> (r: Image)
    requires
        spec_extension(path@) is Some,
    ensures
        r@ == (ImageView {
            alt: ""@,
            data: spec_data_url(bytes@, path@),
            name: name@,
            path: path@,
            is_upload: false,
        }),
{
    let data = base64_from_vec(bytes, path.as_str());
    let mut img = Image::new();
    img.path = path;
    img.name = name;
    img.data = data;
    img
}

} // verus!
