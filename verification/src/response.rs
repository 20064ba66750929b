//! The responses of the server: the index page, a video's bytes, and the
//! error page for what is not there.

use crate::catalog::{VideoEntry, VideoEntryView};
use crate::html::{generate_video_list_html, index_page};
use crate::mime::{get_mime_type, mime_type};
use crate::text::bytes_of;
use vstd::prelude::*;
use vstd::string::*;

verus! {

/// An HTTP response: the status code, the header lines in their order, and
/// the body.
#[derive(Debug)]
pub struct HttpResponse {
    pub status: u16,
    pub headers: Vec<(String, String)>,
    pub body: Vec<u8>,
}

/// An `HttpResponse` as contracts see it.
pub struct HttpResponseView {
    pub status: u16,
    pub headers: Seq<(Seq<char>, Seq<char>)>,
    pub body: Seq<u8>,
}

impl View for HttpResponse {
    type V = HttpResponseView;

    open spec fn view(&self) -> HttpResponseView {
        HttpResponseView {
            status: self.status,
            headers: Seq::new(
                self.headers@.len(),
                |i: int| (self.headers@[i].0@, self.headers@[i].1@),
            ),
            body: self.body@,
        }
    }
}

/// The response to a request for the index page: the page as HTML.
pub open spec fn index_response(
    catalog: Seq<VideoEntryView>,
    server_url: Seq<char>,
) -> HttpResponseView {
    HttpResponseView {
        status: 200,
        headers: seq![("Content-Type"@, "text/html; charset=utf-8"@)],
        body: bytes_of(index_page(catalog, server_url)),
    }
}

/// The response to a request that names nothing in the catalog.
pub open spec fn not_found_response() -> HttpResponseView {
    HttpResponseView {
        status: 404,
        headers: seq![("Content-Type"@, "text/html"@)],
        body: bytes_of("<h1>404 Not Found</h1>"@),
    }
}

/// The response to a request for the video at `path`, where reading the
/// file gave `content`: the bytes as they were read, under the media type of
/// the file; or an error page where the file could not be read.
pub open spec fn video_response(path: Seq<char>, content: Option<Seq<u8>>) -> HttpResponseView {
    match content {
        Some(bytes) => HttpResponseView {
            status: 200,
            headers: seq![
                ("Content-Type"@, mime_type(path)),
                ("Accept-Ranges"@, "bytes"@),
                ("Cache-Control"@, "public, max-age=3600"@),
            ],
            body: bytes,
        },
        None => HttpResponseView {
            status: 404,
            headers: seq![("Content-Type"@, "text/html"@)],
            body: bytes_of("<h1>404 Video Not Found</h1>"@),
        },
    }
}

/// What reading a file gave, as contracts see it.
pub open spec fn content_view(content: Option<Vec<u8>>) -> Option<Seq<u8>> {
    match content {
        Some(bytes) => Some(bytes@),
        None => None,
    }
}

fn header(name: &str, value: &str) -> (h: (String, String))
    ensures
        h.0@ == name@,
        h.1@ == value@,
{
    (String::from_str(name), String::from_str(value))
}

fn html_error(status: u16, page: &str) -> (response: HttpResponse)
    ensures
        response@ == (HttpResponseView {
            status,
            headers: seq![("Content-Type"@, "text/html"@)],
            body: bytes_of(page@),
        }),
{
    let mut headers: Vec<(String, String)> = Vec::new();
    headers.push(header("Content-Type", "text/html"));
    let response = HttpResponse { status, headers, body: page.as_bytes_vec() };
    assert(response@.headers =~= seq![("Content-Type"@, "text/html"@)]);
    response
}

/// The index page of the catalog as a response.
pub fn list_videos_handler(videos: &[VideoEntry], server_url: &str) -> (response: HttpResponse)
    ensures
        response@ == index_response(videos.deep_view(), server_url@),
{
    let html = generate_video_list_html(videos, server_url);
    let mut headers: Vec<(String, String)> = Vec::new();
    headers.push(header("Content-Type", "text/html; charset=utf-8"));
    let response = HttpResponse { status: 200, headers, body: html.as_str().as_bytes_vec() };
    assert(response@.headers =~= seq![("Content-Type"@, "text/html; charset=utf-8"@)]);
    response
}

/// The response that serves a video: `content` is what reading the file at
/// `video_path` gave, `None` where it could not be read.
pub fn serve_video(video_path: &str, content: Option<Vec<u8>>) -> (response: HttpResponse)
    ensures
        response@ == video_response(video_path@, content_view(content)),
{
    match content {
        Some(bytes) => {
            let mut headers: Vec<(String, String)> = Vec::new();
            headers.push(header("Content-Type", get_mime_type(video_path)));
            headers.push(header("Accept-Ranges", "bytes"));
            headers.push(header("Cache-Control", "public, max-age=3600"));
            let response = HttpResponse { status: 200, headers, body: bytes };
            assert(response@.headers =~= seq![
                ("Content-Type"@, mime_type(video_path@)),
                ("Accept-Ranges"@, "bytes"@),
                ("Cache-Control"@, "public, max-age=3600"@),
            ]);
            response
        },
        None => html_error(404, "<h1>404 Video Not Found</h1>"),
    }
}

/// The response to a request that names nothing in the catalog.
pub fn not_found() -> (response: HttpResponse)
    ensures
        response@ == not_found_response(),
{
    html_error(404, "<h1>404 Not Found</h1>")
}

} // verus!
