//! The preview in a browser: a page, the present instant and a conversion, for whoever sits at this
//! device. It knows no registry and asks for no token.
use crate::api::handler;
use crate::api::handler::answer_conversion;
use crate::api::reply;
use crate::api::reply::{Data, DataModel, Reply, ReplyModel};
use crate::api::request;
use crate::api::request::{Body, FieldModel};
use crate::api::routes::Method;
use crate::clock;
use crate::instant;
use crate::instant::now_view_at;
use crate::text;
use vstd::prelude::*;

verus! {

/// What a browser gets: the page, or an answer.
#[derive(Debug, Clone)]
pub enum Preview {
    Page,
    Answer(Reply),
}

pub enum PreviewModel {
    Page,
    Answer(ReplyModel),
}

impl View for Preview {
    type V = PreviewModel;

    open spec fn view(&self) -> PreviewModel {
        match *self {
            Preview::Page => PreviewModel::Page,
            Preview::Answer(r) => PreviewModel::Answer(r@),
        }
    }
}

/// What a browser gets. The address counts as a whole: nothing is split off it.
pub open spec fn preview_of(method: Method, url: Seq<char>, body: Seq<FieldModel>, now_ns: int) -> PreviewModel {
    if method == Method::Get && (url == "/"@ || url == "/index.html"@) {
        PreviewModel::Page
    } else if method == Method::Get && url == "/api/now"@ {
        PreviewModel::Answer(
            match instant::view_of(instant::to_milliseconds(now_ns)) {
                Ok(v) => ReplyModel::Done(DataModel::Now(v)),
                Err(e) => reply::bad_value(e),
            },
        )
    } else if method == Method::Post && url == "/api/convert"@ {
        PreviewModel::Answer(handler::converted(body))
    } else {
        PreviewModel::Answer(
            ReplyModel::Refused {
                status: 404,
                code: "NOT_FOUND"@,
                message: "no route: "@ + url,
            },
        )
    }
}

/// What a browser gets at a given time.
pub fn preview_at(method: Method, url: &str, body: &Body, now_ns: i128) -> (r: Preview)
    requires
        -(clock::MAX_DURATION_NS as int) <= now_ns <= clock::MAX_DURATION_NS,
    ensures
        r@ == preview_of(method, url@, body@, now_ns as int),
{
    if method == Method::Get && (text::same(url, "/") || text::same(url, "/index.html")) {
        Preview::Page
    } else if method == Method::Get && text::same(url, "/api/now") {
        match now_view_at(now_ns) {
            Ok(v) => Preview::Answer(Reply::Done(Data::Now(v))),
            Err(e) => Preview::Answer(Reply::from_core_error(e)),
        }
    } else if method == Method::Post && text::same(url, "/api/convert") {
        Preview::Answer(answer_conversion(body))
    } else {
        let message = text::join("no route: ", url);
        Preview::Answer(Reply::refused(404, "NOT_FOUND", message.as_str()))
    }
}

/// What a browser gets at the time of the device's clock, with a JSON text for a body.
pub fn preview(method: Method, url: &str, body: &str) -> (r: Preview)
    ensures
        exists|now_ns: int|
            -(clock::MAX_DURATION_NS as int) <= now_ns <= clock::MAX_DURATION_NS && r@
                == #[trigger] preview_of(method, url@, request::json_fields(body@), now_ns),
{
    preview_at(method, url, &Body::read(body), clock::now_ns())
}

/// A browser gets the page, the present to the millisecond, or a conversion of what it sends; whatever
/// else it asks for is refused with 404.
pub proof fn law_preview_shows_time_and_converts(
    method: Method,
    url: Seq<char>,
    body: Seq<FieldModel>,
    now_ns: int,
)
    ensures
        ({
            let p = preview_of(method, url, body, now_ns);
            let page = method == Method::Get && (url == "/"@ || url == "/index.html"@);
            let present = method == Method::Get && url == "/api/now"@;
            let convert = method == Method::Post && url == "/api/convert"@;
            &&& p is Page <==> page
            &&& present ==> (match instant::view_of(instant::to_milliseconds(now_ns)) {
                Ok(v) => p == PreviewModel::Answer(ReplyModel::Done(DataModel::Now(v))),
                Err(_) => p matches PreviewModel::Answer(r) && r.status() == 400,
            })
            &&& convert ==> p == PreviewModel::Answer(handler::converted(body))
            &&& !page && !present && !convert ==> (p matches PreviewModel::Answer(r) && r.status() == 404)
        }),
{
    reveal_strlit("/");
    reveal_strlit("/index.html");
    reveal_strlit("/api/now");
    assert("/api/now"@[1] == 'a' && "/index.html"@[1] == 'i' && "/"@.len() == 1);
}

} // verus!
