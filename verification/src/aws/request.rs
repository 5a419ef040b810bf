//! Requests to AWS and the replies to them.
use crate::aws::headers::Headers;
use crate::error::{AnyError, AnyErrorView, AwsError, AwsErrorView};
use crate::outside::{lossy_text, text_of_bytes};
use crate::text::{opt_text, pair_texts, same};
use vstd::prelude::*;
use vstd::string::*;

verus! {

/// A request that is not signed yet.
pub struct AwsRequest {
    pub service: String,
    pub method: String,
    pub endpoint: String,
    pub path: String,
    pub raw_query: String,
    pub headers: Vec<(String, String)>,
    pub body: Vec<u8>,
}

/// [`AwsRequest`] with the texts of its fields.
pub struct AwsRequestView {
    pub service: Seq<char>,
    pub method: Seq<char>,
    pub endpoint: Seq<char>,
    pub path: Seq<char>,
    pub raw_query: Seq<char>,
    pub headers: Seq<(Seq<char>, Seq<char>)>,
    pub body: Seq<u8>,
}

impl View for AwsRequest {
    type V = AwsRequestView;

    open spec fn view(&self) -> AwsRequestView {
        AwsRequestView {
            service: self.service@,
            method: self.method@,
            endpoint: self.endpoint@,
            path: self.path@,
            raw_query: self.raw_query@,
            headers: pair_texts(self.headers@),
            body: self.body@,
        }
    }
}

impl AwsRequestView {
    /// Where the request goes.
    pub open spec fn url(self) -> Seq<char> {
        if self.raw_query.len() == 0 {
            self.endpoint + self.path
        } else {
            self.endpoint + self.path + "?"@ + self.raw_query
        }
    }
}

impl AwsRequest {
    /// Where the request goes.
    pub fn url(&self) -> (r: String)
        ensures
            r@ == self@.url(),
    {
        let mut url = self.endpoint.clone();
        url.append(self.path.as_str());
        if !self.raw_query.as_str().is_empty() {
            url.append("?");
            url.append(self.raw_query.as_str());
        }
        url
    }
}

/// A request as it is sent.
pub struct SignedRequest {
    pub method: String,
    pub url: String,
    pub headers: Headers,
    pub body: Vec<u8>,
}

/// A reply. The value of a header is missing where it is no text.
pub struct HttpResult {
    pub status: u16,
    pub headers: Vec<(String, Option<String>)>,
    pub body: Vec<u8>,
}

/// [`HttpResult`] with the texts of its headers.
pub struct HttpResultView {
    pub status: u16,
    pub headers: Seq<(Seq<char>, Option<Seq<char>>)>,
    pub body: Seq<u8>,
}

impl View for HttpResult {
    type V = HttpResultView;

    open spec fn view(&self) -> HttpResultView {
        HttpResultView {
            status: self.status,
            headers: self.headers@.map_values(
                |h: (String, Option<String>)| (h.0@, opt_text(h.1)),
            ),
            body: self.body@,
        }
    }
}

/// A request that was not answered in full. The status is 0 where it was not answered at all.
pub struct SendError {
    pub status: u16,
    pub message: String,
}

/// A reply, or the failure of the request.
pub open spec fn reply_view(r: Result<HttpResult, AwsError>) -> Result<
    HttpResultView,
    AwsErrorView,
> {
    match r {
        Ok(reply) => Ok(reply@),
        Err(e) => Err(e@),
    }
}

/// What is known of a result: the view of its value, or of its error.
pub open spec fn seen<T: View>(r: Result<T, AnyError>) -> Result<T::V, AnyErrorView> {
    match r {
        Ok(t) => Ok(t@),
        Err(e) => Err(e@),
    }
}

/// What a request comes to: a reply whose status is not a success is a failure, told by its body.
pub open spec fn outcome(
    request: AwsRequestView,
    sent: Result<HttpResultView, (u16, Seq<char>)>,
) -> Result<HttpResultView, AwsErrorView> {
    match sent {
        Ok(reply) => if 200 <= reply.status <= 299 {
            Ok(reply)
        } else {
            Err(
                AwsErrorView {
                    service: request.service,
                    method: request.method,
                    status: reply.status,
                    body: lossy_text(reply.body),
                },
            )
        },
        Err(e) => Err(
            AwsErrorView {
                service: request.service,
                method: request.method,
                status: e.0,
                body: e.1,
            },
        ),
    }
}

/// What was sent back, or why nothing was.
pub open spec fn sent_view(sent: Result<HttpResult, SendError>) -> Result<
    HttpResultView,
    (u16, Seq<char>),
> {
    match sent {
        Ok(reply) => Ok(reply@),
        Err(e) => Err((e.status, e.message@)),
    }
}

impl AwsRequest {
    /// What the request comes to, where `sent` was sent back.
    pub fn outcome(&self, sent: Result<HttpResult, SendError>) -> (r: Result<HttpResult, AwsError>)
        ensures
            reply_view(r) == outcome(self@, sent_view(sent)),
    {
        match sent {
            Ok(reply) => {
                if reply.status >= 200 && reply.status <= 299 {
                    Ok(reply)
                } else {
                    Err(
                        AwsError {
                            service: self.service.clone(),
                            method: self.method.clone(),
                            status: reply.status,
                            body: text_of_bytes(reply.body.as_slice()),
                        },
                    )
                }
            },
            Err(e) => Err(
                AwsError {
                    service: self.service.clone(),
                    method: self.method.clone(),
                    status: e.status,
                    body: e.message,
                },
            ),
        }
    }
}

/// The text of the first header `name`, where there is one and it is a text.
pub open spec fn header_text(
    headers: Seq<(Seq<char>, Option<Seq<char>>)>,
    name: Seq<char>,
) -> Option<Seq<char>>
    decreases headers.len(),
{
    if headers.len() == 0 {
        None
    } else if headers[0].0 == name {
        headers[0].1
    } else {
        header_text(headers.drop_first(), name)
    }
}

impl HttpResult {
    /// The text of the first header `name`.
    pub fn header(&self, name: &str) -> (r: Option<String>)
        ensures
            opt_text(r) == header_text(self@.headers, name@),
    {
        let ghost all = self@.headers;
        assert(all.skip(0) == all);
        for i in 0..self.headers.len()
            invariant
                all == self@.headers,
                all.len() == self.headers@.len(),
                header_text(all.skip(i as int), name@) == header_text(all, name@),
        {
            assert(all.skip(i as int).drop_first() == all.skip(i + 1));
            assert(all[i as int] == (self.headers@[i as int].0@, opt_text(self.headers@[i as int].1)));
            if same(self.headers[i].0.as_str(), name) {
                return match &self.headers[i].1 {
                    Some(text) => Some(text.clone()),
                    None => None,
                };
            }
        }
        assert(all.skip(all.len() as int).len() == 0);
        None
    }

    /// The text of the body.
    pub fn text(&self) -> (r: String)
        ensures
            r@ == lossy_text(self@.body),
    {
        text_of_bytes(self.body.as_slice())
    }
}

/// A request goes to its endpoint and path, and to its query behind a question mark where it has
/// one.
pub proof fn law_query_stands_behind_the_path(r: AwsRequestView)
    ensures
        (r.endpoint + r.path).is_prefix_of(r.url()),
        r.raw_query.len() == 0 ==> r.url() == r.endpoint + r.path,
        r.raw_query.len() > 0 ==> r.url() == r.endpoint + r.path + seq!['?'] + r.raw_query,
{
    reveal_strlit("?");
    assert("?"@ == seq!['?']);
}

/// A reply succeeds exactly where its status lies between 200 and 299. Any other reply is a failure
/// of the request with that status and the text of the body, and so is a request that was not
/// answered, with what is known of it.
pub proof fn law_statuses_decide(
    request: AwsRequestView,
    reply: HttpResultView,
    status: u16,
    m: Seq<char>,
)
    ensures
        reply.status / 100 == 2 ==> outcome(request, Ok(reply)) == Ok::<
            HttpResultView,
            AwsErrorView,
        >(reply),
        reply.status / 100 != 2 ==> outcome(request, Ok(reply)) == Err::<
            HttpResultView,
            AwsErrorView,
        >(
            AwsErrorView {
                service: request.service,
                method: request.method,
                status: reply.status,
                body: lossy_text(reply.body),
            },
        ),
        outcome(request, Err((status, m))) == Err::<HttpResultView, AwsErrorView>(
            AwsErrorView { service: request.service, method: request.method, status, body: m },
        ),
{
}

/// The first header of a name counts, and headers of other names do not matter.
pub proof fn law_first_header_counts(
    others: Seq<(Seq<char>, Option<Seq<char>>)>,
    name: Seq<char>,
    value: Option<Seq<char>>,
    rest: Seq<(Seq<char>, Option<Seq<char>>)>,
)
    requires
        forall|i: int| 0 <= i < others.len() ==> (#[trigger] others[i]).0 != name,
    ensures
        header_text(others, name) is None,
        header_text(others + seq![(name, value)] + rest, name) == value,
    decreases others.len(),
{
    let all = others + seq![(name, value)] + rest;
    if others.len() > 0 {
        let fewer = others.drop_first();
        assert forall|i: int| 0 <= i < fewer.len() implies (#[trigger] fewer[i]).0 != name by {
            assert(others[i + 1].0 != name);
        }
        law_first_header_counts(fewer, name, value, rest);
        assert(all.drop_first() == fewer + seq![(name, value)] + rest);
        assert(all[0].0 == others[0].0);
    } else {
        assert(all[0] == (name, value));
    }
}

}
