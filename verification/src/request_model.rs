use vstd::prelude::*;

use crate::text::owned;

verus! {

/// How the body of a request is written.
#[derive(Clone, Copy, Debug, PartialEq, Eq, Structural)]
pub enum BodyMode {
    NoBody,
    Raw,
    FormUrlEncoded,
    MultipartFormData,
}

/// Whether a form field carries text or the path of a file to upload.
#[derive(Clone, Copy, Debug, PartialEq, Eq, Structural)]
pub enum BodyFieldKind {
    Text,
    File,
}

/// The language a raw body is edited in.
#[derive(Clone, Copy, Debug, PartialEq, Eq, Structural)]
pub enum RawBodyLanguage {
    Json,
    Text,
    Xml,
    Html,
}

/// One request header. `shared` marks a header that the request takes from
/// the shared header set rather than defining it itself.
#[derive(Debug, PartialEq, Eq)]
pub struct HeaderEntry {
    pub name: String,
    pub value: String,
    pub enabled: bool,
    pub shared: bool,
}

/// One field of a form body.
#[derive(Debug, PartialEq, Eq)]
pub struct BodyField {
    pub enabled: bool,
    pub name: String,
    pub value: String,
    pub kind: BodyFieldKind,
}

/// The request part of a request definition.
#[derive(Debug, PartialEq, Eq)]
pub struct RequestDraft {
    pub method: String,
    pub url: String,
    pub headers: Vec<HeaderEntry>,
    pub body: String,
    pub body_mode: BodyMode,
    pub raw_body_language: RawBodyLanguage,
    pub body_fields: Vec<BodyField>,
}

/// The scripts run before a request and after its response.
#[derive(Debug, PartialEq, Eq)]
pub struct RequestScripts {
    pub pre_request: String,
    pub post_response: String,
}

/// A complete request definition: the request and its scripts.
#[derive(Debug, PartialEq, Eq)]
pub struct RequestTemplate {
    pub request: RequestDraft,
    pub scripts: RequestScripts,
}

/// The content of a header: name, value, enabled.
pub type HeaderView = (Seq<char>, Seq<char>, bool);

/// The content of a form field: enabled, name, value, kind.
pub type BodyFieldView = (bool, Seq<char>, Seq<char>, BodyFieldKind);

/// The content of a request definition.
pub struct TemplateView {
    pub method: Seq<char>,
    pub url: Seq<char>,
    pub headers: Seq<HeaderView>,
    pub body: Seq<char>,
    pub body_mode: BodyMode,
    pub raw_body_language: RawBodyLanguage,
    pub body_fields: Seq<BodyFieldView>,
    pub pre_request: Seq<char>,
    pub post_response: Seq<char>,
}

impl View for HeaderEntry {
    type V = HeaderView;

    open spec fn view(&self) -> HeaderView {
        (self.name@, self.value@, self.enabled)
    }
}

impl View for BodyField {
    type V = BodyFieldView;

    open spec fn view(&self) -> BodyFieldView {
        (self.enabled, self.name@, self.value@, self.kind)
    }
}

/// The contents of a list of headers.
pub open spec fn headers_view(headers: Seq<HeaderEntry>) -> Seq<HeaderView> {
    headers.map_values(|h: HeaderEntry| h@)
}

/// The contents of a list of form fields.
pub open spec fn fields_view(fields: Seq<BodyField>) -> Seq<BodyFieldView> {
    fields.map_values(|f: BodyField| f@)
}

impl View for RequestTemplate {
    type V = TemplateView;

    open spec fn view(&self) -> TemplateView {
        TemplateView {
            method: self.request.method@,
            url: self.request.url@,
            headers: headers_view(self.request.headers@),
            body: self.request.body@,
            body_mode: self.request.body_mode,
            raw_body_language: self.request.raw_body_language,
            body_fields: fields_view(self.request.body_fields@),
            pre_request: self.scripts.pre_request@,
            post_response: self.scripts.post_response@,
        }
    }
}

impl Clone for HeaderEntry {
    fn clone(&self) -> (r: Self)
        ensures
            r == *self,
    {
        HeaderEntry { name: self.name.clone(), value: self.value.clone(), enabled: self.enabled, shared: self.shared }
    }
}

impl Clone for BodyField {
    fn clone(&self) -> (r: Self)
        ensures
            r == *self,
    {
        BodyField {
            enabled: self.enabled,
            name: self.name.clone(),
            value: self.value.clone(),
            kind: self.kind,
        }
    }
}

impl Clone for RequestDraft {
    fn clone(&self) -> (r: Self)
        ensures
            r.method == self.method,
            r.url == self.url,
            r.headers@ == self.headers@,
            r.body == self.body,
            r.body_mode == self.body_mode,
            r.raw_body_language == self.raw_body_language,
            r.body_fields@ == self.body_fields@,
    {
        let headers = self.headers.clone();
        let body_fields = self.body_fields.clone();
        proof {
            assert(headers@ =~= self.headers@);
            assert(body_fields@ =~= self.body_fields@);
        }
        RequestDraft {
            method: self.method.clone(),
            url: self.url.clone(),
            headers,
            body: self.body.clone(),
            body_mode: self.body_mode,
            raw_body_language: self.raw_body_language,
            body_fields,
        }
    }
}

impl Clone for RequestScripts {
    fn clone(&self) -> (r: Self)
        ensures
            r == *self,
    {
        RequestScripts {
            pre_request: self.pre_request.clone(),
            post_response: self.post_response.clone(),
        }
    }
}

impl Clone for RequestTemplate {
    fn clone(&self) -> (r: Self)
        ensures
            r@ == self@,
            r.request.headers@ == self.request.headers@,
            r.request.body_fields@ == self.request.body_fields@,
    {
        RequestTemplate { request: self.request.clone(), scripts: self.scripts.clone() }
    }
}

impl HeaderEntry {
    pub fn new(name: String, value: String) -> (h: HeaderEntry)
        ensures
            h.name == name,
            h.value == value,
            h.enabled,
            h.shared,
    {
        HeaderEntry { name, value, enabled: true, shared: true }
    }
}

impl RequestDraft {
    /// A request with the given method and URL and nothing else.
    pub fn new(method: &str, url: &str) -> (d: RequestDraft)
        ensures
            d.method@ == method@,
            d.url@ == url@,
            d.headers@.len() == 0,
            d.body@.len() == 0,
            d.body_mode == BodyMode::NoBody,
            d.raw_body_language == RawBodyLanguage::Json,
            d.body_fields@.len() == 0,
    {
        RequestDraft {
            method: owned(method),
            url: owned(url),
            headers: Vec::new(),
            body: String::new(),
            body_mode: BodyMode::NoBody,
            raw_body_language: RawBodyLanguage::Json,
            body_fields: Vec::new(),
        }
    }
}

impl RequestTemplate {
    /// A definition made of a request and no scripts.
    pub fn new(request: RequestDraft) -> (t: RequestTemplate)
        ensures
            t.request == request,
            t.scripts.pre_request@.len() == 0,
            t.scripts.post_response@.len() == 0,
    {
        RequestTemplate {
            request,
            scripts: RequestScripts { pre_request: String::new(), post_response: String::new() },
        }
    }

    /// The definition a blank request tab starts from: `GET` with no URL.
    pub fn blank() -> (t: RequestTemplate)
        ensures
            t@.method == "GET"@,
            t@.url.len() == 0,
            t@.headers.len() == 0,
            t@.body.len() == 0,
            t@.body_mode == BodyMode::NoBody,
            t@.body_fields.len() == 0,
            t@.pre_request.len() == 0,
            t@.post_response.len() == 0,
    {
        proof {
            reveal_strlit("");
        }
        RequestTemplate::new(RequestDraft::new("GET", ""))
    }
}

fn same_headers(a: &Vec<HeaderEntry>, b: &Vec<HeaderEntry>) -> (r: bool)
    ensures
        r == (headers_view(a@) == headers_view(b@)),
{
    if a.len() != b.len() {
        assert(headers_view(a@).len() != headers_view(b@).len());
        return false;
    }
    let mut i: usize = 0;
    while i < a.len()
        invariant
            a.len() == b.len(),
            0 <= i <= a.len(),
            forall|k: int| 0 <= k < i ==> a@[k]@ == b@[k]@,
        decreases a.len() - i,
    {
        if !(a[i].name == b[i].name && a[i].value == b[i].value && a[i].enabled == b[i].enabled) {
            assert(headers_view(a@)[i as int] != headers_view(b@)[i as int]);
            return false;
        }
        i = i + 1;
    }
    assert(headers_view(a@) =~= headers_view(b@));
    true
}

fn same_fields(a: &Vec<BodyField>, b: &Vec<BodyField>) -> (r: bool)
    ensures
        r == (fields_view(a@) == fields_view(b@)),
{
    if a.len() != b.len() {
        assert(fields_view(a@).len() != fields_view(b@).len());
        return false;
    }
    let mut i: usize = 0;
    while i < a.len()
        invariant
            a.len() == b.len(),
            0 <= i <= a.len(),
            forall|k: int| 0 <= k < i ==> a@[k]@ == b@[k]@,
        decreases a.len() - i,
    {
        if !(a[i].name == b[i].name && a[i].value == b[i].value && a[i].enabled == b[i].enabled
            && a[i].kind == b[i].kind) {
            assert(fields_view(a@)[i as int] != fields_view(b@)[i as int]);
            return false;
        }
        i = i + 1;
    }
    assert(fields_view(a@) =~= fields_view(b@));
    true
}

/// Whether two request definitions have the same content.
pub fn same_template(a: &RequestTemplate, b: &RequestTemplate) -> (r: bool)
    ensures
        r == (a@ == b@),
{
    a.request.method == b.request.method && a.request.url == b.request.url && same_headers(
        &a.request.headers,
        &b.request.headers,
    ) && a.request.body == b.request.body && a.request.body_mode == b.request.body_mode
        && a.request.raw_body_language == b.request.raw_body_language && same_fields(
        &a.request.body_fields,
        &b.request.body_fields,
    ) && a.scripts.pre_request == b.scripts.pre_request && a.scripts.post_response
        == b.scripts.post_response
}

} // verus!
