//! Answers to HTTP requests.
use vstd::prelude::*;

use crate::encoding;
use crate::event::Event;
use crate::path;
use crate::pdf;
use crate::pdf::{PdfData, PdfState};
use crate::text;
use crate::text::decimal_text;

verus! {

/// The path under which a page is asked for.
pub const PAGE_ROUTE: &'static str = "/haippt/api/v1/show";

/// The path under which the PDF on show is asked for.
pub const PDF_ROUTE: &'static str = "/pdf";

/// The port that the device answers on.
pub const HTTP_PORT: u16 = 8080;

/// A request for a page.
#[derive(Clone, Copy, Debug)]
pub struct PageParams {
    pub page: u32,
}

/// The answer to a request for a page.
#[derive(Clone, Copy, Debug)]
pub struct PageResult {
    pub page: u32,
}

/// Answers a request for a page: the screen is told, and the page is confirmed.
pub fn get_page_handler(params: PageParams) -> (r: (Event, PageResult))
    ensures
        r.0 == Event::PageChange(params.page),
        r.1.page == params.page,
{
    (Event::PageChange(params.page), PageResult { page: params.page })
}

/// A line of an answer's head.
#[derive(Debug)]
pub struct Header {
    pub name: String,
    pub value: String,
}

/// What an answer holds.
#[derive(Debug)]
pub enum Body {
    Text(String),
    Bytes(Vec<u8>),
}

/// An answer.
#[derive(Debug)]
pub struct HttpResponse {
    pub status: u16,
    pub headers: Vec<Header>,
    pub body: Body,
}

impl HttpResponse {
    /// The lines of the head, as pairs of a name and a value.
    pub open spec fn head(self) -> Seq<(Seq<char>, Seq<char>)> {
        self.headers@.map_values(|h: Header| (h.name@, h.value@))
    }
}

/// Whether an answer is this text, with this status and nothing in its head.
pub open spec fn is_plain(response: HttpResponse, status: int, message: Seq<char>) -> bool {
    &&& response.status == status
    &&& response.head() == Seq::<(Seq<char>, Seq<char>)>::empty()
    &&& response.body matches Body::Text(t) && t@ == message
}

fn plain(status: u16, message: String) -> (r: HttpResponse)
    ensures
        is_plain(r, status as int, message@),
{
    let r = HttpResponse { status, headers: Vec::new(), body: Body::Text(message) };
    assert(r.head() =~= Seq::<(Seq<char>, Seq<char>)>::empty());
    r
}

/// Whether an answer is a PDF that holds `bytes`.
pub open spec fn is_pdf_answer(response: HttpResponse, bytes: Seq<u8>) -> bool {
    &&& response.status == 200
    &&& response.head() == seq![
        ("Content-Type"@, "application/pdf"@),
        ("Content-Length"@, text::decimal(bytes.len())),
    ]
    &&& response.body matches Body::Bytes(b) && b@ == bytes
}

/// Answers a request for the PDF on show, given what came of reading it. When no PDF is on show,
/// what was read does not matter.
pub fn get_pdf_handler(state: &PdfState, read: Result<Vec<u8>, String>) -> (r: HttpResponse)
    ensures
        match (state.loaded(), read) {
            (None, _) => is_plain(r, 404, "No PDF loaded"@),
            (Some(_), Err(error)) => is_plain(r, 500, "Read error: "@ + error@),
            (Some(_), Ok(bytes)) => is_pdf_answer(r, bytes@),
        },
{
    if state.path.is_none() {
        return plain(404, "No PDF loaded".to_string());
    }
    match read {
        Err(error) => {
            let mut message = "Read error: ".to_string();
            message.append(error.as_str());
            plain(500, message)
        },
        Ok(bytes) => {
            let length = decimal_text(bytes.len() as u64);
            let mut headers: Vec<Header> = Vec::new();
            headers.push(
                Header {
                    name: "Content-Type".to_string(),
                    value: "application/pdf".to_string(),
                },
            );
            headers.push(Header { name: "Content-Length".to_string(), value: length });
            let r = HttpResponse { status: 200, headers, body: Body::Bytes(bytes) };
            assert(r.head() =~= seq![
                ("Content-Type"@, "application/pdf"@),
                ("Content-Length"@, text::decimal(bytes@.len())),
            ]);
            r
        },
    }
}

/// The screen and a request over HTTP get the same file: decoding what the screen is handed gives
/// the body of the answer, and the name beside it is the last component of the file's path.
pub proof fn law_screen_and_http_get_the_same_file(
    data: PdfData,
    response: HttpResponse,
    path: Seq<char>,
    bytes: Seq<u8>,
)
    requires
        pdf::is_handed_out(data, path, bytes),
        is_pdf_answer(response, bytes),
    ensures
        response.body matches Body::Bytes(b) && encoding::base64_bytes(data.base64@) == b@,
        encoding::base64_bytes(data.base64@) == bytes,
        data.base64@.len() == encoding::base64_length(bytes.len() as int),
        data.file_name@ == path::shown_name(path),
{
    encoding::law_base64_decoding_gives_back(bytes);
    encoding::law_base64_length(bytes);
}

/// The answer to a request for the PDF on show, at `/pdf`, line by line. The length in its head is a numeral
/// that reads, digit by digit from the left, as the number of bytes in its body.
pub proof fn law_pdf_answers(
    state: &PdfState,
    read: Result<Vec<u8>, String>,
    r: HttpResponse,
)
    requires
        call_ensures(get_pdf_handler, (state, read), r),
    ensures
        HTTP_PORT == 8080 && PDF_ROUTE@ == "/pdf"@,
        r.status == 404 <==> state.path is None,
        r.status == 500 <==> state.path is Some && read is Err,
        r.status == 200 <==> state.path is Some && read is Ok,
        r.status == 404 ==> r.headers@.len() == 0 && (r.body matches Body::Text(t) && t@
            == "No PDF loaded"@),
        r.status == 500 ==> r.headers@.len() == 0 && (r.body matches Body::Text(t) && t@
            == "Read error: "@ + read->Err_0@),
        r.status == 200 ==> {
            &&& r.body matches Body::Bytes(b) && b@ == read->Ok_0@
            &&& r.headers@.len() == 2
            &&& r.headers@[0].name@ == "Content-Type"@
            &&& r.headers@[0].value@ == "application/pdf"@
            &&& r.headers@[1].name@ == "Content-Length"@
            &&& r.headers@[1].value@.len() > 0
            &&& forall|i: int|
                0 <= i < r.headers@[1].value@.len() ==> '0' <= #[trigger] r.headers@[1].value@[i]
                    <= '9'
            &&& r.headers@[1].value@.len() > 1 ==> r.headers@[1].value@[0] != '0'
            &&& r.headers@[1].value@.fold_left(
                0int,
                |value: int, c: char| 10 * value + (c as int - 48),
            ) == read->Ok_0@.len()
        },
{
    let head = r.head();
    assert(head.len() == r.headers@.len());
    if state.path is Some && read is Ok {
        text::law_decimal_reads_back(read->Ok_0@.len());
        assert(head[0] == (r.headers@[0].name@, r.headers@[0].value@));
        assert(head[1] == (r.headers@[1].name@, r.headers@[1].value@));
    }
}

/// A page that is asked for goes to the screen and is confirmed, as it was asked for.
pub proof fn law_page_is_passed_on(params: PageParams, r: (Event, PageResult))
    requires
        call_ensures(get_page_handler, (params,), r),
    ensures
        HTTP_PORT == 8080 && PAGE_ROUTE@ == "/haippt/api/v1/show"@,
        r.0 matches Event::PageChange(page) && page == params.page,
        r.1.page == params.page,
{
}

} // verus!
