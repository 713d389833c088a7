//! Builders for HTTP responses: a plain-text response rendered here, and the
//! handles for file-backed and template-backed responses whose file reading
//! is the caller's I/O.
use vstd::prelude::*;
use vstd::utf8::encode_utf8;

use crate::text::{push_char, spec_dec_string, u64_to_string};

verus! {

pub trait GetResponseString {
    fn get_response_string(&self) -> String;
}

/// A decimal rendering of a possibly negative number.
pub open spec fn spec_int_dec(n: int) -> Seq<char> {
    if n < 0 {
        seq!['-'] + spec_dec_string(-n)
    } else {
        spec_dec_string(n)
    }
}

fn i32_to_string(n: i32) -> (r: String)
    ensures
        r@ == spec_int_dec(n as int),
{
    if n >= 0 {
        u64_to_string(n as u64)
    } else {
        let mag = -(n as i64);
        let mut s = String::new();
        push_char(&mut s, '-');
        let digits = u64_to_string(mag as u64);
        s.append(digits.as_str());
        proof {
            assert(s@ =~= seq!['-'] + spec_dec_string(-(n as int)));
        }
        s
    }
}

/// The full text response: status line, the fixed HTML content type, the
/// body's byte length, and the body.
pub open spec fn spec_text_response(code: int, t: Seq<char>) -> Seq<char> {
    "HTTP/1.1 "@ + spec_int_dec(code)
        + "\r\nContent-Type: text/html; charset=UTF-8\r\nContent-Length: "@ + spec_dec_string(
        (encode_utf8(t).len() as usize) as int,
    ) + "\r\n\r\n"@ + t
}

/// A response carrying a fixed text body.
pub struct WebResponseGeneratorText {
    pub return_code: i32,
    pub text: String,
}

impl WebResponseGeneratorText {
    pub fn new(return_code: i32, text: &str) -> (r: WebResponseGeneratorText)
        ensures
            r.return_code == return_code,
            r.text@ == text@,
    {
        WebResponseGeneratorText { return_code, text: text.to_owned() }
    }

    /// Render the response.
    pub fn response_string(&self) -> (r: String)
        ensures
            r@ == spec_text_response(self.return_code as int, self.text@),
    {
        let mut out = String::new();
        out.append("HTTP/1.1 ");
        let code = i32_to_string(self.return_code);
        out.append(code.as_str());
        out.append("\r\nContent-Type: text/html; charset=UTF-8\r\nContent-Length: ");
        let blen = self.text.as_str().len();
        let digits = u64_to_string(blen as u64);
        out.append(digits.as_str());
        out.append("\r\n\r\n");
        out.append(self.text.as_str());
        proof {
            assert(out@ =~= spec_text_response(self.return_code as int, self.text@));
        }
        out
    }
}

impl GetResponseString for WebResponseGeneratorText {
    fn get_response_string(&self) -> String {
        self.response_string()
    }
}

/// The handle for a response read from a file; reading the file and
/// rendering are the caller's I/O.
pub struct WebResponseGeneratorFile {
    pub file: String,
}

impl WebResponseGeneratorFile {
    pub fn new(file: String) -> (r: WebResponseGeneratorFile)
        ensures
            r.file@ == file@,
    {
        WebResponseGeneratorFile { file }
    }
}

/// The handle for a templated response: the template's path and the contents
/// for its placeholders, in order.
pub struct WebResponseGeneratorTemplateFile {
    pub template_args: u32,
    pub path: String,
    pub content: Vec<String>,
}

impl WebResponseGeneratorTemplateFile {
    pub fn from(path: &str, content: &str) -> (r: WebResponseGeneratorTemplateFile)
        ensures
            r.template_args == 1u32,
            r.path@ == path@,
            r.content@.len() == 1,
            r.content@[0]@ == content@,
    {
        let mut c: Vec<String> = Vec::new();
        c.push(content.to_owned());
        WebResponseGeneratorTemplateFile { template_args: 1, path: path.to_owned(), content: c }
    }

    /// Add one more placeholder's content.
    pub fn add_field(self, content: &str) -> (r: WebResponseGeneratorTemplateFile)
        requires
            self.template_args < u32::MAX,
        ensures
            r.template_args == self.template_args + 1,
            r.path@ == self.path@,
            r.content@.len() == self.content@.len() + 1,
            r.content@[r.content@.len() - 1]@ == content@,
            forall|i: int| 0 <= i < self.content@.len() ==> r.content@[i] == self.content@[i],
    {
        let mut wrg = self;
        wrg.content.push(content.to_owned());
        wrg.template_args = wrg.template_args + 1;
        wrg
    }
}

} // verus!
