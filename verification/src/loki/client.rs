//! Where a Loki server is, and what its replies hold.
use crate::number::{decimal, write_u64};
use crate::output::Error;
use crate::text::{quote, quoted, same};
use crate::value::{opt, or_text, str_of, text_of, Json, JsonView};
use vstd::prelude::*;
use vstd::string::*;

verus! {

/// A Loki server.
#[derive(Debug)]
pub struct LokiClient {
    /// The URL that paths are appended to; it does not end in a slash.
    pub base_url: String,
}

/// How a GET request ended.
#[derive(Debug)]
pub enum HttpReply {
    /// A body of JSON.
    Json(Json),
    /// A status that is not a success, with the body where it could be read.
    Status(u16, Option<String>),
    /// No reply.
    Failed,
    /// A body that could not be read.
    Unreadable,
    /// A body that is not JSON.
    NotJson,
}

/// What an `HttpReply` says.
pub enum HttpModel {
    Json(JsonView),
    Status(int, Option<Seq<char>>),
    Failed,
    Unreadable,
    NotJson,
}

impl View for HttpReply {
    type V = HttpModel;

    open spec fn view(&self) -> HttpModel {
        match self {
            HttpReply::Json(v) => HttpModel::Json(v@),
            HttpReply::Status(code, body) => HttpModel::Status(*code as int, opt(*body)),
            HttpReply::Failed => HttpModel::Failed,
            HttpReply::Unreadable => HttpModel::Unreadable,
            HttpReply::NotJson => HttpModel::NotJson,
        }
    }
}

/// `s` without the slashes at its end.
pub open spec fn without_slashes(s: Seq<char>) -> Seq<char>
    decreases s.len(),
{
    if s.len() > 0 && s.last() == '/' {
        without_slashes(s.drop_last())
    } else {
        s
    }
}

/// A base URL does not end in a slash, and one that does not is left as it is.
pub proof fn base_url_has_no_slash_at_its_end(s: Seq<char>)
    ensures
        without_slashes(s).len() > 0 ==> without_slashes(s).last() != '/',
        without_slashes(without_slashes(s)) == without_slashes(s),
        without_slashes(s).is_prefix_of(s),
    decreases s.len(),
{
    if s.len() > 0 && s.last() == '/' {
        base_url_has_no_slash_at_its_end(s.drop_last());
    }
}

/// The body of a reply; none where nothing is there. Else what went wrong with the request to
/// `url`.
pub open spec fn reply_body(url: Seq<char>, reply: HttpModel) -> Result<Option<JsonView>, Seq<char>> {
    match reply {
        HttpModel::Json(v) => Ok(Some(v)),
        HttpModel::Status(code, body) => if code == 404 {
            Ok(None)
        } else {
            Err(
                "GET "@ + url + " returned HTTP "@ + decimal(code as nat) + ": "@ + or_text(
                    body,
                    "<unreadable body>"@,
                ),
            )
        },
        HttpModel::Failed => Err("GET "@ + url),
        HttpModel::Unreadable => Err("reading response body for GET "@ + url),
        HttpModel::NotJson => Err("parsing JSON response for GET "@ + url),
    }
}

/// The data of a reply to the request for `path`, or what is wrong with it.
pub open spec fn envelope_data(raw: JsonView, path: Seq<char>) -> Result<JsonView, Seq<char>> {
    match text_of(raw.get("status"@)) {
        None => Err("Loki response for "@ + path + " has no `status` field"@),
        Some(status) => if status == "success"@ {
            match raw.get("data"@) {
                Some(data) => Ok(data),
                None => Err("Loki success response for "@ + path + " has no `data` field"@),
            }
        } else {
            Err("Loki response for "@ + path + " has non-success status "@ + quoted(status))
        },
    }
}

/// The data of the reply of the server at `base` to the request for `path`.
pub open spec fn loki_data(base: Seq<char>, path: Seq<char>, reply: HttpModel) -> Result<Option<JsonView>, Seq<char>> {
    match reply_body(base + path, reply) {
        Ok(Some(raw)) => match envelope_data(raw, path) {
            Ok(data) => Ok(Some(data)),
            Err(e) => Err(e),
        },
        Ok(None) => Ok(None),
        Err(e) => Err(e),
    }
}

impl LokiClient {
    /// The server at `base_url`; slashes at its end are dropped.
    pub fn new(base_url: &str) -> (r: LokiClient)
        ensures
            r.base_url@ == without_slashes(base_url@),
    {
        let mut n = base_url.unicode_len();
        assert(base_url@.take(n as int) =~= base_url@);
        while n > 0 && base_url.get_char(n - 1) == '/'
            invariant
                n <= base_url@.len(),
                without_slashes(base_url@) == without_slashes(base_url@.take(n as int)),
            decreases n,
        {
            assert(base_url@.take(n as int).drop_last() =~= base_url@.take(n - 1));
            n -= 1;
        }
        assert(base_url@.subrange(0, n as int) =~= base_url@.take(n as int));
        LokiClient { base_url: base_url.substring_char(0, n).to_owned() }
    }

    /// The URL of a path on the server.
    pub fn url(&self, path: &str) -> (r: String)
        ensures
            r@ == self.base_url@ + path@,
    {
        let mut out = self.base_url.clone();
        out.append(path);
        out
    }

    /// The body of the reply to a request for `path`; none where nothing is there.
    pub fn get_json(&self, path: &str, reply: HttpReply) -> (r: Result<Option<Json>, Error>)
        ensures
            match r {
                Ok(body) => reply_body(self.base_url@ + path@, reply@) == Ok::<Option<JsonView>, Seq<char>>(opt(body)),
                Err(e) => reply_body(self.base_url@ + path@, reply@) == Err::<Option<JsonView>, Seq<char>>(
                    e.message@,
                ),
            },
    {
        let url = self.url(path);
        let mut message = String::new();
        match reply {
            HttpReply::Json(v) => {
                return Ok(Some(v));
            },
            HttpReply::Status(code, body) => {
                if code == 404 {
                    return Ok(None);
                }
                message = "GET ".to_owned();
                message.append(url.as_str());
                message.append(" returned HTTP ");
                message.append(write_u64(code as u64).as_str());
                message.append(": ");
                match body {
                    Some(body) => message.append(body.as_str()),
                    None => message.append("<unreadable body>"),
                }
            },
            HttpReply::Failed => {
                message = "GET ".to_owned();
                message.append(url.as_str());
            },
            HttpReply::Unreadable => {
                message = "reading response body for GET ".to_owned();
                message.append(url.as_str());
            },
            HttpReply::NotJson => {
                message = "parsing JSON response for GET ".to_owned();
                message.append(url.as_str());
            },
        }
        Err(Error { message })
    }

    /// The data of the reply to a request for `path`; none where nothing is there.
    pub fn get_loki(&self, path: &str, reply: HttpReply) -> (r: Result<Option<Json>, Error>)
        ensures
            match r {
                Ok(data) => loki_data(self.base_url@, path@, reply@) == Ok::<Option<JsonView>, Seq<char>>(opt(data)),
                Err(e) => loki_data(self.base_url@, path@, reply@) == Err::<Option<JsonView>, Seq<char>>(e.message@),
            },
    {
        match self.get_json(path, reply) {
            Ok(Some(raw)) => match unwrap_loki_envelope(&raw, path) {
                Ok(data) => Ok(Some(data)),
                Err(e) => Err(e),
            },
            Ok(None) => Ok(None),
            Err(e) => Err(e),
        }
    }
}

/// The data of a reply to the request for `path`.
pub fn unwrap_loki_envelope(raw: &Json, path: &str) -> (r: Result<Json, Error>)
    ensures
        match r {
            Ok(data) => envelope_data(raw@, path@) == Ok::<JsonView, Seq<char>>(data@),
            Err(e) => envelope_data(raw@, path@) == Err::<JsonView, Seq<char>>(e.message@),
        },
{
    let status = match str_of(raw.get("status")) {
        Some(status) => status,
        None => {
            let mut message = "Loki response for ".to_owned();
            message.append(path);
            message.append(" has no `status` field");
            return Err(Error { message });
        },
    };
    if same(status, "success") {
        match raw.get("data") {
            Some(data) => Ok(data.copy()),
            None => {
                let mut message = "Loki success response for ".to_owned();
                message.append(path);
                message.append(" has no `data` field");
                Err(Error { message })
            },
        }
    } else {
        let mut message = "Loki response for ".to_owned();
        message.append(path);
        message.append(" has non-success status ");
        message.append(quote(status).as_str());
        Err(Error { message })
    }
}

/// The URL of the server: that of the flag, else that of the environment; an empty text counts
/// as none.
pub open spec fn endpoint(flag: Option<Seq<char>>, env: Option<Seq<char>>) -> Option<Seq<char>> {
    if flag is Some && flag->0.len() > 0 {
        flag
    } else if env is Some && env->0.len() > 0 {
        env
    } else {
        None
    }
}

/// The URL of the server, from the flag and the value of `LOKI_URL`.
pub fn resolve_endpoint_inner(flag: Option<&str>, env_value: Option<String>) -> (r: Result<String, Error>)
    ensures
        match r {
            Ok(url) => endpoint(opt(flag), opt(env_value)) == Some(url@),
            Err(e) => endpoint(opt(flag), opt(env_value)) is None && e.message@
                == "no endpoint URL. Pass --url <URL> or set LOKI_URL. (Auto-discovery via Kubernetes service + transparent port-forward is a planned follow-up.)"@,
        },
{
    if let Some(url) = flag {
        if !url.is_empty() {
            return Ok(url.to_owned());
        }
    }
    if let Some(url) = env_value {
        if !url.as_str().is_empty() {
            return Ok(url);
        }
    }
    Err(
        Error {
            message:
                "no endpoint URL. Pass --url <URL> or set LOKI_URL. (Auto-discovery via Kubernetes service + transparent port-forward is a planned follow-up.)".to_owned(),
        },
    )
}

/// What went wrong with a request is told apart: a status that is no success is an error with its
/// number and its body, but for the one of what is not there, which is no error.
pub proof fn statuses_are_told_apart(url: Seq<char>, code: int, body: Seq<char>, v: JsonView)
    requires
        code >= 0,
    ensures
        reply_body(url, HttpModel::Json(v)) == Ok::<Option<JsonView>, Seq<char>>(Some(v)),
        code == 404 ==> reply_body(url, HttpModel::Status(code, Some(body))) == Ok::<Option<JsonView>, Seq<char>>(None)
            && reply_body(url, HttpModel::Status(code, None)) == Ok::<Option<JsonView>, Seq<char>>(None),
        code != 404 ==> reply_body(url, HttpModel::Status(code, Some(body))) == Err::<Option<JsonView>, Seq<char>>(
            "GET "@ + url + " returned HTTP "@ + decimal(code as nat) + ": "@ + body,
        ) && reply_body(url, HttpModel::Status(code, None)) is Err,
        reply_body(url, HttpModel::Failed) is Err,
        reply_body(url, HttpModel::Unreadable) is Err,
        reply_body(url, HttpModel::NotJson) is Err,
{
}

/// The data of an envelope is taken just where its status is `success` and there is data.
pub proof fn only_success_has_data(raw: JsonView, path: Seq<char>, status: Seq<char>, data: JsonView)
    ensures
        raw.get("status"@) == Some(JsonView::Text("success"@)) && raw.get("data"@) == Some(data) ==> envelope_data(raw, path)
            == Ok::<JsonView, Seq<char>>(data),
        raw.get("status"@) == Some(JsonView::Text(status)) && status != "success"@ ==> envelope_data(raw, path) is Err,
        raw.get("status"@) is None || raw.get("data"@) is None ==> envelope_data(raw, path) is Err,
{
}

/// An endpoint that is given goes before that of the environment, and an empty one counts as none.
pub proof fn given_endpoints_go_first(flag: Seq<char>, env: Seq<char>, other: Option<Seq<char>>)
    ensures
        flag.len() > 0 ==> endpoint(Some(flag), other) == Some(flag),
        env.len() > 0 ==> endpoint(None, Some(env)) == Some(env) && endpoint(Some(seq![]), Some(env)) == Some(env),
        endpoint(None, None) is None && endpoint(Some(seq![]), None) is None && endpoint(None, Some(seq![])) is None
            && endpoint(Some(seq![]), Some(seq![])) is None,
{
}

} // verus!
