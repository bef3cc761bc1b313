//! The small vocabulary of an HTTP/1.1 server: versions, methods, status
//! codes, content types, and the first line of a request.

use vstd::prelude::*;
use vstd::slice::slice_subrange;
use crate::ascii::{
    bytes_equal, find_byte, find_token_end, find_token_start, index_of_byte, skip_spaces, token_end,
};

verus! {

/// Versions of the HTTP protocol.
#[non_exhaustive]
#[derive(Copy, Clone, Debug, PartialEq, Eq, Structural)]
pub enum Version {
    V1,
    V1_1,
    V2,
    V3,
}

/// The text that is no version, after its prefixes were taken off.
#[derive(Debug)]
pub struct ParseVersionError(pub Vec<u8>);

/// The bytes of `HTTP/`.
pub open spec fn version_prefix() -> Seq<u8> {
    seq![72u8, 84u8, 84u8, 80u8, 47u8]
}

/// `s` without every `HTTP/` that it starts with.
pub open spec fn without_version_prefixes(s: Seq<u8>) -> Seq<u8>
    decreases s.len(),
{
    if s.len() >= 5 && s.take(5) == version_prefix() {
        without_version_prefixes(s.skip(5))
    } else {
        s
    }
}

/// The version that a number names: `1`, `1.1`, `2` or `3`.
pub open spec fn version_of_number(number: Seq<u8>) -> Option<Version> {
    if number == seq![49u8] {
        Some(Version::V1)
    } else if number == seq![49u8, 46u8, 49u8] {
        Some(Version::V1_1)
    } else if number == seq![50u8] {
        Some(Version::V2)
    } else if number == seq![51u8] {
        Some(Version::V3)
    } else {
        None
    }
}

fn has_version_prefix_at(s: &[u8], i: usize) -> (r: bool)
    requires
        i <= s@.len(),
    ensures
        r == (s@.skip(i as int).len() >= 5 && s@.skip(i as int).take(5) == version_prefix()),
{
    if s.len() - i < 5 {
        return false;
    }
    let r = s[i] == 72 && s[i + 1] == 84 && s[i + 2] == 84 && s[i + 3] == 80 && s[i + 4] == 47;
    proof {
        let t = s@.skip(i as int).take(5);
        assert(t[0] == s@[i as int]);
        assert(t[1] == s@[i + 1]);
        assert(t[2] == s@[i + 2]);
        assert(t[3] == s@[i + 3]);
        assert(t[4] == s@[i + 4]);
        if r {
            assert(t =~= version_prefix());
        }
    }
    r
}

fn copy_bytes(s: &[u8]) -> (v: Vec<u8>)
    ensures
        v@ == s@,
{
    let mut v: Vec<u8> = Vec::new();
    let mut i: usize = 0;
    while i < s.len()
        invariant
            i <= s@.len(),
            v@ == s@.take(i as int),
        decreases s@.len() - i,
    {
        v.push(s[i]);
        assert(v@ =~= s@.take(i + 1));
        i += 1;
    }
    assert(s@.take(s@.len() as int) =~= s@);
    v
}

impl Version {
    /// The number of the version, as it is written after `HTTP/`.
    pub open spec fn number(self) -> Seq<u8> {
        match self {
            Version::V1 => seq![49u8],
            Version::V1_1 => seq![49u8, 46u8, 49u8],
            Version::V2 => seq![50u8],
            Version::V3 => seq![51u8],
        }
    }

    /// Reads a version: any number of `HTTP/` prefixes, then the number.
    pub fn from_bytes(s: &[u8]) -> (r: Result<Self, ParseVersionError>)
        ensures
            match r {
                Ok(version) => version_of_number(without_version_prefixes(s@)) == Some(version),
                Err(e) => version_of_number(without_version_prefixes(s@)) is None && e.0@
                    == without_version_prefixes(s@),
            },
    {
        let mut i: usize = 0;
        let total = s.len();
        assert(s@.skip(0) =~= s@);
        while has_version_prefix_at(s, i)
            invariant
                i <= s@.len(),
                total == s@.len(),
                without_version_prefixes(s@) == without_version_prefixes(s@.skip(i as int)),
            decreases s@.len() - i,
        {
            assert(s@.skip(i as int).len() == s@.len() - i);
            assert(s@.skip(i as int).skip(5) =~= s@.skip(i + 5));
            i += 5;
        }
        let number = slice_subrange(s, i, s.len());
        assert(number@ =~= s@.skip(i as int));
        let one: [u8; 1] = [49];
        let one_one: [u8; 3] = [49, 46, 49];
        let two: [u8; 1] = [50];
        let three: [u8; 1] = [51];
        proof {
            assert(one@ =~= seq![49u8]);
            assert(one_one@ =~= seq![49u8, 46u8, 49u8]);
            assert(two@ =~= seq![50u8]);
            assert(three@ =~= seq![51u8]);
        }
        if bytes_equal(number, one.as_slice()) {
            Ok(Version::V1)
        } else if bytes_equal(number, one_one.as_slice()) {
            Ok(Version::V1_1)
        } else if bytes_equal(number, two.as_slice()) {
            Ok(Version::V2)
        } else if bytes_equal(number, three.as_slice()) {
            Ok(Version::V3)
        } else {
            Err(ParseVersionError(copy_bytes(number)))
        }
    }

    /// The text of the version: `HTTP/` and the number.
    pub fn to_bytes(&self) -> (out: Vec<u8>)
        ensures
            out@ == version_prefix() + self.number(),
    {
        let mut out: Vec<u8> = Vec::new();
        out.push(72u8);
        out.push(84u8);
        out.push(84u8);
        out.push(80u8);
        out.push(47u8);
        match self {
            Version::V1 => {
                out.push(49u8);
            },
            Version::V1_1 => {
                out.push(49u8);
                out.push(46u8);
                out.push(49u8);
            },
            Version::V2 => {
                out.push(50u8);
            },
            Version::V3 => {
                out.push(51u8);
            },
        }
        assert(out@ =~= version_prefix() + self.number());
        out
    }
}

/// Writing a version and reading it back gives the version.
pub proof fn lemma_version_round_trip(version: Version)
    ensures
        version_of_number(without_version_prefixes(version_prefix() + version.number())) == Some(
            version,
        ),
{
    let text = version_prefix() + version.number();
    assert(text.take(5) =~= version_prefix());
    assert(text.skip(5) =~= version.number());
    let number = version.number();
    assert(without_version_prefixes(number) == number);
    match version {
        Version::V1 => {
            assert(number[0] == 49u8);
        },
        Version::V1_1 => {
            assert(number[0] == 49u8);
        },
        Version::V2 => {
            assert(number[0] == 50u8);
        },
        Version::V3 => {
            assert(number[0] == 51u8);
        },
    }
}

/// The kinds of request that are served.
#[non_exhaustive]
#[derive(Debug, Copy, Clone, PartialEq, Eq, Structural)]
#[allow(non_camel_case_types)]
pub enum Method {
    GET,
}

/// The text that is no method.
#[derive(Debug)]
pub struct ParseMethodError(pub Vec<u8>);

/// The bytes of `GET`.
pub open spec fn get_repr() -> Seq<u8> {
    seq![71u8, 69u8, 84u8]
}

impl Method {
    pub fn from_bytes(s: &[u8]) -> (r: Result<Self, ParseMethodError>)
        ensures
            match r {
                Ok(method) => s@ == get_repr() && method == Method::GET,
                Err(e) => s@ != get_repr() && e.0@ == s@,
            },
    {
        let get: [u8; 3] = [71, 69, 84];
        assert(get@ =~= get_repr());
        if bytes_equal(s, get.as_slice()) {
            Ok(Method::GET)
        } else {
            Err(ParseMethodError(copy_bytes(s)))
        }
    }
}

#[non_exhaustive]
#[derive(Debug, Copy, Clone, PartialEq, Eq, Structural)]
pub enum StatusCode {
    Okay,
    MovedPermanently,
    Forbidden,
    NotFound,
    NotImplemented,
}

impl StatusCode {
    pub open spec fn spec_code(self) -> usize {
        match self {
            StatusCode::Okay => 200,
            StatusCode::MovedPermanently => 301,
            StatusCode::Forbidden => 403,
            StatusCode::NotFound => 404,
            StatusCode::NotImplemented => 501,
        }
    }

    /// The words that go with the number of the status.
    pub open spec fn spec_message(self) -> Seq<char> {
        match self {
            StatusCode::Okay => "OK"@,
            StatusCode::MovedPermanently => "Moved Permanently"@,
            StatusCode::Forbidden => "Forbidden"@,
            StatusCode::NotFound => "Not Found"@,
            StatusCode::NotImplemented => "Not Implemented"@,
        }
    }

    pub fn message(&self) -> (message: &'static str)
        ensures
            message@ == self.spec_message(),
    {
        match self {
            StatusCode::Okay => "OK",
            StatusCode::MovedPermanently => "Moved Permanently",
            StatusCode::Forbidden => "Forbidden",
            StatusCode::NotFound => "Not Found",
            StatusCode::NotImplemented => "Not Implemented",
        }
    }

    /// The number of the status.
    pub fn code(&self) -> (code: usize)
        ensures
            code == self.spec_code(),
    {
        match self {
            StatusCode::Okay => 200,
            StatusCode::MovedPermanently => 301,
            StatusCode::Forbidden => 403,
            StatusCode::NotFound => 404,
            StatusCode::NotImplemented => 501,
        }
    }
}

pub struct StatusLine {
    version: Version,
    status_code: StatusCode,
}

impl StatusLine {
    pub closed spec fn spec_version(&self) -> Version {
        self.version
    }

    pub closed spec fn spec_status_code(&self) -> StatusCode {
        self.status_code
    }

    pub fn new(version: Version, status_code: StatusCode) -> (line: Self)
        ensures
            line.spec_version() == version,
            line.spec_status_code() == status_code,
    {
        Self { version, status_code }
    }

    pub fn version(&self) -> (version: Version)
        ensures
            version == self.spec_version(),
    {
        self.version
    }

    pub fn status_code(&self) -> (status_code: StatusCode)
        ensures
            status_code == self.spec_status_code(),
    {
        self.status_code
    }
}

/// The kinds of content that are served.
#[non_exhaustive]
#[derive(Debug, Copy, Clone, Hash, PartialEq, Eq, Structural)]
pub enum ContentType {
    Txt,
    Html,
    Css,
    Jpg,
    Jpeg,
    Png,
    Pdf,
    OctetSteam,
}

impl Default for ContentType {
    fn default() -> (content_type: Self)
        ensures
            content_type == ContentType::OctetSteam,
    {
        ContentType::OctetSteam
    }
}

impl ContentType {
    /// The kind of content that a file name extension stands for; any
    /// extension that is not known stands for a stream of bytes.
    pub open spec fn for_extension(extension: Seq<u8>) -> ContentType {
        if extension == seq![116u8, 120u8, 116u8] {
            ContentType::Txt
        } else if extension == seq![104u8, 116u8, 109u8, 108u8] {
            ContentType::Html
        } else if extension == seq![99u8, 115u8, 115u8] {
            ContentType::Css
        } else if extension == seq![106u8, 112u8, 103u8] {
            ContentType::Jpg
        } else if extension == seq![106u8, 112u8, 101u8, 103u8] {
            ContentType::Jpeg
        } else if extension == seq![112u8, 110u8, 103u8] {
            ContentType::Png
        } else if extension == seq![112u8, 100u8, 102u8] {
            ContentType::Pdf
        } else {
            ContentType::OctetSteam
        }
    }

    /// The media type, as it is written in a header.
    pub open spec fn media_type(self) -> Seq<char> {
        match self {
            ContentType::Txt => "text/plain; charset=utf-8"@,
            ContentType::Html => "text/html; charset=utf-8"@,
            ContentType::Css => "text/css; charset=utf-8"@,
            ContentType::Jpg => "image/jpeg"@,
            ContentType::Jpeg => "image/jpeg"@,
            ContentType::Png => "image/png"@,
            ContentType::Pdf => "application/pdf"@,
            ContentType::OctetSteam => "application/octet-stream"@,
        }
    }

    pub fn of_extension(extension: &[u8]) -> (content_type: Self)
        ensures
            content_type == Self::for_extension(extension@),
    {
        let txt: [u8; 3] = [116, 120, 116];
        let html: [u8; 4] = [104, 116, 109, 108];
        let css: [u8; 3] = [99, 115, 115];
        let jpg: [u8; 3] = [106, 112, 103];
        let jpeg: [u8; 4] = [106, 112, 101, 103];
        let png: [u8; 3] = [112, 110, 103];
        let pdf: [u8; 3] = [112, 100, 102];
        proof {
            assert(txt@ =~= seq![116u8, 120u8, 116u8]);
            assert(html@ =~= seq![104u8, 116u8, 109u8, 108u8]);
            assert(css@ =~= seq![99u8, 115u8, 115u8]);
            assert(jpg@ =~= seq![106u8, 112u8, 103u8]);
            assert(jpeg@ =~= seq![106u8, 112u8, 101u8, 103u8]);
            assert(png@ =~= seq![112u8, 110u8, 103u8]);
            assert(pdf@ =~= seq![112u8, 100u8, 102u8]);
        }
        if bytes_equal(extension, txt.as_slice()) {
            ContentType::Txt
        } else if bytes_equal(extension, html.as_slice()) {
            ContentType::Html
        } else if bytes_equal(extension, css.as_slice()) {
            ContentType::Css
        } else if bytes_equal(extension, jpg.as_slice()) {
            ContentType::Jpg
        } else if bytes_equal(extension, jpeg.as_slice()) {
            ContentType::Jpeg
        } else if bytes_equal(extension, png.as_slice()) {
            ContentType::Png
        } else if bytes_equal(extension, pdf.as_slice()) {
            ContentType::Pdf
        } else {
            ContentType::OctetSteam
        }
    }

    pub fn text(&self) -> (text: &'static str)
        ensures
            text@ == self.media_type(),
    {
        match self {
            ContentType::Txt => "text/plain; charset=utf-8",
            ContentType::Html => "text/html; charset=utf-8",
            ContentType::Css => "text/css; charset=utf-8",
            ContentType::Jpg => "image/jpeg",
            ContentType::Jpeg => "image/jpeg",
            ContentType::Png => "image/png",
            ContentType::Pdf => "application/pdf",
            ContentType::OctetSteam => "application/octet-stream",
        }
    }
}

#[derive(Debug, Copy, Clone, PartialEq, Eq, Structural)]
pub enum InvalidHeaderFormatError {
    ColonMissing,
    CrlfMissing,
}

/// Where a header line splits into name and rest: at its first colon. A
/// line must end in a carriage return and a line feed, and hold a colon.
pub open spec fn header_split(line: Seq<u8>) -> Result<int, InvalidHeaderFormatError> {
    if !(line.len() >= 2 && line[line.len() - 2] == 13 && line[line.len() - 1] == 10) {
        Err(InvalidHeaderFormatError::CrlfMissing)
    } else if index_of_byte(line, 58, 0) >= line.len() {
        Err(InvalidHeaderFormatError::ColonMissing)
    } else {
        Ok(index_of_byte(line, 58, 0))
    }
}

/// Splits a header line into its name and the rest, which starts with
/// the colon and ends with the end of the line.
pub fn generic_parse(line: &[u8]) -> (r: Result<(&[u8], &[u8]), InvalidHeaderFormatError>)
    ensures
        match r {
            Ok((name, rest)) => header_split(line@) is Ok && name@ == line@.take(
                header_split(line@)->Ok_0,
            ) && rest@ == line@.skip(header_split(line@)->Ok_0),
            Err(e) => header_split(line@) == Err::<int, InvalidHeaderFormatError>(e),
        },
{
    let n = line.len();
    if n < 2 || line[n - 2] != 13 || line[n - 1] != 10 {
        return Err(InvalidHeaderFormatError::CrlfMissing);
    }
    let colon = find_byte(line, 58, 0);
    if colon >= n {
        return Err(InvalidHeaderFormatError::ColonMissing);
    }
    let name = slice_subrange(line, 0, colon);
    let rest = slice_subrange(line, colon, n);
    assert(name@ =~= line@.take(colon as int));
    assert(rest@ =~= line@.skip(colon as int));
    Ok((name, rest))
}

#[non_exhaustive]
#[derive(Debug)]
pub enum ParseUrlError {
    InvalidUtf8(Vec<u8>),
}

#[derive(Debug)]
pub enum ParseStartLineError {
    /// The line has fewer than three tokens; the line is kept.
    InvalidFormatError(Vec<u8>),
    ParseMethodError(ParseMethodError),
    ParseUrlError(ParseUrlError),
    ParseVersionError(ParseVersionError),
}

/// The first line of a request: method, url and version.
pub struct StartLine {
    method: Method,
    url: Vec<u8>,
    version: Version,
}

/// What the first line of a request says.
pub struct StartLineView {
    pub method: Method,
    pub url: Seq<u8>,
    pub version: Version,
}

/// The three tokens of a line, where it has that many.
pub open spec fn start_line_tokens(line: Seq<u8>) -> Option<(Seq<u8>, Seq<u8>, Seq<u8>)> {
    let a0 = skip_spaces(line, 0);
    let b0 = token_end(line, a0);
    let a1 = skip_spaces(line, b0);
    let b1 = token_end(line, a1);
    let a2 = skip_spaces(line, b1);
    let b2 = token_end(line, a2);
    if a2 < line.len() {
        Some((line.subrange(a0, b0), line.subrange(a1, b1), line.subrange(a2, b2)))
    } else {
        None
    }
}

/// What a line means as the first line of a request: its first three
/// tokens are the method, the url and the version.
pub open spec fn parsed_start_line(line: Seq<u8>) -> Option<StartLineView> {
    match start_line_tokens(line) {
        Some((method, url, version)) => if method == get_repr() {
            match version_of_number(without_version_prefixes(version)) {
                Some(version) => Some(StartLineView { method: Method::GET, url, version }),
                None => None,
            }
        } else {
            None
        },
        None => None,
    }
}

impl View for StartLine {
    type V = StartLineView;

    closed spec fn view(&self) -> StartLineView {
        StartLineView { method: self.method, url: self.url@, version: self.version }
    }
}

impl StartLine {
    pub fn new(method: Method, url: &[u8], version: Version) -> (line: Self)
        ensures
            line@ == (StartLineView { method, url: url@, version }),
    {
        Self { method, url: copy_bytes(url), version }
    }

    pub fn method(&self) -> (method: &Method)
        ensures
            *method == self@.method,
    {
        &self.method
    }

    pub fn url(&self) -> (url: &[u8])
        ensures
            url@ == self@.url,
    {
        self.url.as_slice()
    }

    pub fn version(&self) -> (version: &Version)
        ensures
            *version == self@.version,
    {
        &self.version
    }

    /// Reads the first line of a request. It is one exactly when it has
    /// three tokens of which the first is a method and the third a version.
    pub fn from_bytes(line: &[u8]) -> (r: Result<Self, ParseStartLineError>)
        ensures
            match r {
                Ok(start_line) => parsed_start_line(line@) == Some(start_line@),
                Err(_) => parsed_start_line(line@) is None,
            },
            match start_line_tokens(line@) {
                None => r matches Err(ParseStartLineError::InvalidFormatError(kept)) && kept@
                    == line@,
                Some((method, url, version)) => if method != get_repr() {
                    r matches Err(ParseStartLineError::ParseMethodError(e)) && e.0@ == method
                } else if version_of_number(without_version_prefixes(version)) is None {
                    r matches Err(ParseStartLineError::ParseVersionError(e)) && e.0@
                        == without_version_prefixes(version)
                } else {
                    r is Ok
                },
            },
    {
        let a0 = find_token_start(line, 0);
        let b0 = find_token_end(line, a0);
        let a1 = find_token_start(line, b0);
        let b1 = find_token_end(line, a1);
        let a2 = find_token_start(line, b1);
        let b2 = find_token_end(line, a2);
        if a2 >= line.len() {
            return Err(ParseStartLineError::InvalidFormatError(copy_bytes(line)));
        }
        let method = match Method::from_bytes(slice_subrange(line, a0, b0)) {
            Ok(method) => method,
            Err(e) => {
                return Err(ParseStartLineError::ParseMethodError(e));
            },
        };
        let version = match Version::from_bytes(slice_subrange(line, a2, b2)) {
            Ok(version) => version,
            Err(e) => {
                return Err(ParseStartLineError::ParseVersionError(e));
            },
        };
        Ok(Self::new(method, slice_subrange(line, a1, b1), version))
    }
}

} // verus!
