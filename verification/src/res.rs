//! HTTP responses and their constructors.

use vstd::prelude::*;
use vstd::string::{StrSliceExecFns, StringExecFns, StringSliceAdditionalSpecFns};

use crate::ascii::{chars_of, lemma_ascii_chars_bytes};
use crate::body::HttpBody;
use crate::digits::{spec_digits, u64_to_string};
use crate::range::{resolve, spec_resolve, RangeOutcome};
use crate::status_code::StatusCode;
use crate::urlencode::{
    encode_uri, is_uri_encoded, lemma_encode_ascii, lemma_encode_uri_safe, spec_encode,
    spec_is_uri_encoded, EncodeProfile,
};

verus! {

/// One response header: an ordered name/value pair. Duplicates are
/// permitted and insertion order is kept.
#[derive(Debug)]
pub struct HttpHeader {
    pub name: String,
    pub value: String,
}

impl View for HttpHeader {
    type V = (Seq<char>, Seq<char>);

    open spec fn view(&self) -> (Seq<char>, Seq<char>) {
        (self.name@, self.value@)
    }
}

/// The name/value views of a header sequence, in order.
pub open spec fn header_views(hs: Seq<HttpHeader>) -> Seq<(Seq<char>, Seq<char>)> {
    Seq::new(hs.len(), |i: int| hs[i]@)
}

proof fn lemma_header_views_push(hs: Seq<HttpHeader>, h: HttpHeader)
    ensures
        header_views(hs.push(h)) == header_views(hs).push(h@),
{
    assert(header_views(hs.push(h)) =~= header_views(hs).push(h@));
}

/// Your response.
pub struct HttpResponse {
    pub code: StatusCode,
    pub headers: Vec<HttpHeader>,
    pub body: HttpBody,
    pub content_type: String,
}

impl HttpResponse {
    /// An empty response: status 200, no headers, empty body.
    pub fn new() -> (r: HttpResponse)
        ensures
            r.code.0 == 200,
            header_views(r.headers@) == Seq::<(Seq<char>, Seq<char>)>::empty(),
            r.body matches HttpBody::Bytes(b) && b@ == Seq::<u8>::empty(),
            r.content_type@ == Seq::<char>::empty(),
    {
        let r = HttpResponse::with_type("", HttpBody::Bytes(Vec::new()));
        proof {
            reveal_strlit("");
            assert(""@ =~= Seq::<char>::empty());
            assert(header_views(r.headers@) =~= Seq::<(Seq<char>, Seq<char>)>::empty());
        }
        r
    }

    /// Pushes a new header; everything else is unchanged.
    pub fn add_header(&mut self, name: &str, value: &str)
        ensures
            final (self).code == old(self).code,
            final (self).body == old(self).body,
            final (self).content_type == old(self).content_type,
            header_views(final (self).headers@) == header_views(old(self).headers@).push(
                ((name@, value@)),
            ),
    {
        let h = HttpHeader { name: name.to_owned(), value: value.to_owned() };
        proof {
            lemma_header_views_push(self.headers@, h);
        }
        self.headers.push(h);
    }

    /// A fresh response with the given `Content-Type` and body:
    /// status 200 and no headers.
    pub fn with_type(content_type: &str, body: HttpBody) -> (r: HttpResponse)
        ensures
            r.code.0 == 200,
            header_views(r.headers@) == Seq::<(Seq<char>, Seq<char>)>::empty(),
            r.body == body,
            r.content_type@ == content_type@,
    {
        let r = HttpResponse {
            code: StatusCode(200),
            headers: Vec::new(),
            body,
            content_type: content_type.to_owned(),
        };
        proof {
            assert(header_views(r.headers@) =~= Seq::<(Seq<char>, Seq<char>)>::empty());
        }
        r
    }
}

impl Default for HttpResponse {
    /// The empty response.
    fn default() -> (r: HttpResponse)
        ensures
            r.code.0 == 200,
            header_views(r.headers@) == Seq::<(Seq<char>, Seq<char>)>::empty(),
            r.body matches HttpBody::Bytes(b) && b@ == Seq::<u8>::empty(),
            r.content_type@ == Seq::<char>::empty(),
    {
        HttpResponse::new()
    }
}

/// Response of bytes (`application/octet-stream`).
pub fn bytes(data: Vec<u8>) -> (r: HttpResponse)
    ensures
        r.code.0 == 200,
        header_views(r.headers@) == Seq::<(Seq<char>, Seq<char>)>::empty(),
        r.body matches HttpBody::Bytes(b) && b@ == data@,
        r.content_type@ == "application/octet-stream"@,
{
    HttpResponse::with_type("application/octet-stream", HttpBody::Bytes(data))
}

/// Plaintext response (`text/plain`).
pub fn text(content: &str) -> (r: HttpResponse)
    ensures
        r.code.0 == 200,
        header_views(r.headers@) == Seq::<(Seq<char>, Seq<char>)>::empty(),
        r.body matches HttpBody::Bytes(b) && b@ == content.spec_bytes(),
        r.content_type@ == "text/plain; charset=utf-8"@,
{
    HttpResponse::with_type("text/plain; charset=utf-8", HttpBody::Bytes(content.as_bytes_vec()))
}

/// HTML response (`text/html`).
pub fn html(content: &str) -> (r: HttpResponse)
    ensures
        r.code.0 == 200,
        header_views(r.headers@) == Seq::<(Seq<char>, Seq<char>)>::empty(),
        r.body matches HttpBody::Bytes(b) && b@ == content.spec_bytes(),
        r.content_type@ == "text/html; charset=utf-8"@,
{
    HttpResponse::with_type("text/html; charset=utf-8", HttpBody::Bytes(content.as_bytes_vec()))
}

/// JSON response (`application/json`).
pub fn json(content: &str) -> (r: HttpResponse)
    ensures
        r.code.0 == 200,
        header_views(r.headers@) == Seq::<(Seq<char>, Seq<char>)>::empty(),
        r.body matches HttpBody::Bytes(b) && b@ == content.spec_bytes(),
        r.content_type@ == "application/json"@,
{
    HttpResponse::with_type("application/json", HttpBody::Bytes(content.as_bytes_vec()))
}

/// The `Location` value a redirect will carry: the destination as
/// given if it is already percent-safe for a URI, else re-encoded.
pub open spec fn spec_location(dest: &str) -> Seq<char> {
    if spec_is_uri_encoded(dest.spec_bytes()) {
        dest@
    } else {
        chars_of(spec_encode(dest.spec_bytes(), EncodeProfile::Uri))
    }
}

/// The bytes of that `Location` value.
pub open spec fn spec_location_bytes(dest: &str) -> Seq<u8> {
    if spec_is_uri_encoded(dest.spec_bytes()) {
        dest.spec_bytes()
    } else {
        spec_encode(dest.spec_bytes(), EncodeProfile::Uri)
    }
}

/// HTTP redirect with the `Location` header. A destination that is
/// not already percent-safe is re-encoded before it is placed in the
/// header or the anchor, so no quote, backslash, space or control
/// byte can reach either.
pub fn redirect(dest: &str) -> (r: HttpResponse)
    ensures
        r.code.0 == 301,
        header_views(r.headers@) == seq![(("Location"@, spec_location(dest)))],
        spec_is_uri_encoded(spec_location_bytes(dest)),
        vstd::utf8::encode_utf8(spec_location(dest)) == spec_location_bytes(dest),
        r.body matches HttpBody::Bytes(b) && b@ == vstd::utf8::encode_utf8(
            "<a href=\""@ + spec_location(dest) + "\">Click here if you weren't redirected</a>\n"@,
        ),
        r.content_type@ == "text/html; charset=utf-8"@,
{
    let loc: String = if is_uri_encoded(dest) {
        dest.to_owned()
    } else {
        encode_uri(dest.as_bytes())
    };
    proof {
        if !spec_is_uri_encoded(dest.spec_bytes()) {
            let e = spec_encode(dest.spec_bytes(), EncodeProfile::Uri);
            lemma_encode_ascii(dest.spec_bytes(), EncodeProfile::Uri);
            lemma_encode_uri_safe(dest.spec_bytes());
            lemma_ascii_chars_bytes(e);
        }
        assert(loc@ == spec_location(dest));
    }
    let mut page = String::new();
    page.append("<a href=\"");
    page.append(loc.as_str());
    page.append("\">Click here if you weren't redirected</a>\n");
    proof {
        assert(page@ == "<a href=\""@ + spec_location(dest)
            + "\">Click here if you weren't redirected</a>\n"@);
    }
    let mut headers: Vec<HttpHeader> = Vec::new();
    headers.push(HttpHeader { name: "Location".to_owned(), value: loc });
    proof {
        assert(header_views(headers@) =~= seq![(("Location"@, spec_location(dest)))]);
    }
    HttpResponse {
        code: StatusCode(301),
        headers,
        body: HttpBody::Bytes(page.as_str().as_bytes_vec()),
        content_type: "text/html; charset=utf-8".to_owned(),
    }
}

/// The value of a `Content-Range` header for a served range.
pub open spec fn content_range_value(start: u64, end: u64, total: u64) -> Seq<char> {
    "bytes "@ + chars_of(spec_digits(start as nat)) + "-"@ + chars_of(spec_digits(end as nat))
        + "/"@ + chars_of(spec_digits(total as nat))
}

/// The headers every file response carries: `Last-Modified` and
/// `Date` where they could be computed, and `Accept-Ranges: bytes`
/// always.
pub open spec fn spec_file_headers(modified: Option<String>, date: Option<String>) -> Seq<
    (Seq<char>, Seq<char>),
> {
    (match modified {
        Some(m) => seq![(("Last-Modified"@, m@))],
        None => Seq::empty(),
    }) + (match date {
        Some(d) => seq![(("Date"@, d@))],
        None => Seq::empty(),
    }) + seq![(("Accept-Ranges"@, "bytes"@))]
}

/// How a file is to be delivered: the status code and headers of the
/// response, and which slice of the file to send.
#[derive(Debug)]
pub struct FilePlan {
    pub code: StatusCode,
    pub headers: Vec<HttpHeader>,
    /// Where the file's read position must be placed before sending.
    pub offset: u64,
    /// How many bytes are to be sent from there.
    pub length: u64,
}

/// Decides how to serve a file of `len` bytes under an optional
/// `Range` header. A satisfiable range gives a 206 plan with an exact
/// `Content-Range` header; no range gives a 200 plan for the whole
/// file; an unsatisfiable range is refused with status 416, which
/// carries no headers here.
pub fn file_plan(range: Option<&str>, len: u64, modified: Option<String>, date: Option<String>)
    -> (r: Result<FilePlan, StatusCode>)
    ensures
        ({
            let outcome = match range {
                Some(h) => spec_resolve(h.spec_bytes(), len),
                None => RangeOutcome::Full,
            };
            match outcome {
                RangeOutcome::Unsatisfiable => r matches Err(c) && c.0 == 416,
                RangeOutcome::Full => r matches Ok(p) && p.code.0 == 200 && p.offset == 0
                    && p.length == len && header_views(p.headers@) == spec_file_headers(
                    modified,
                    date,
                ),
                RangeOutcome::Partial { start, end, length } => r matches Ok(p) && p.code.0 == 206
                    && p.offset == start && p.length == length && header_views(p.headers@)
                    == spec_file_headers(modified, date).push(
                    (("Content-Range"@, content_range_value(start, end, len))),
                ),
            }
        }),
{
    let outcome = resolve(range, len);
    if let RangeOutcome::Unsatisfiable = outcome {
        return Err(StatusCode(416));
    }
    let mut headers: Vec<HttpHeader> = Vec::new();
    match modified {
        Some(m) => {
            let h = HttpHeader { name: "Last-Modified".to_owned(), value: m };
            proof {
                lemma_header_views_push(headers@, h);
            }
            headers.push(h);
        },
        None => {},
    }
    match date {
        Some(d) => {
            let h = HttpHeader { name: "Date".to_owned(), value: d };
            proof {
                lemma_header_views_push(headers@, h);
            }
            headers.push(h);
        },
        None => {},
    }
    let ar = HttpHeader { name: "Accept-Ranges".to_owned(), value: "bytes".to_owned() };
    proof {
        lemma_header_views_push(headers@, ar);
    }
    headers.push(ar);
    proof {
        assert(header_views(headers@) =~= spec_file_headers(modified, date));
    }
    match outcome {
        RangeOutcome::Full => Ok(FilePlan { code: StatusCode(200), headers, offset: 0, length: len }),
        RangeOutcome::Partial { start, end, length } => {
            let mut cr = String::new();
            cr.append("bytes ");
            let sv = u64_to_string(start);
            cr.append(sv.as_str());
            cr.append("-");
            let ev = u64_to_string(end);
            cr.append(ev.as_str());
            cr.append("/");
            let tv = u64_to_string(len);
            cr.append(tv.as_str());
            proof {
                assert(cr@ == content_range_value(start, end, len));
            }
            let h = HttpHeader { name: "Content-Range".to_owned(), value: cr };
            proof {
                lemma_header_views_push(headers@, h);
            }
            headers.push(h);
            Ok(FilePlan { code: StatusCode(206), headers, offset: start, length })
        },
        RangeOutcome::Unsatisfiable => Err(StatusCode(416)),
    }
}

/// Builds the response that delivers a planned file slice. The file
/// handle must already have been positioned at the plan's offset; the
/// sender will transfer exactly the plan's length from there.
pub fn file_response(file: tokio::fs::File, plan: FilePlan) -> (r: HttpResponse)
    ensures
        r.code == plan.code,
        r.headers == plan.headers,
        r.body matches HttpBody::File { len, .. } && len == plan.length,
        r.content_type@ == Seq::<char>::empty(),
{
    let FilePlan { code, headers, offset: _, length } = plan;
    HttpResponse {
        code,
        headers,
        body: HttpBody::File { file, len: length },
        content_type: String::new(),
    }
}

} // verus!
