//! A call as it came in: its method, its target, its headers and the fields of its body.
use crate::api::routes::Method;
use crate::json;
use crate::number::{Float, Number};
use crate::store::table;
use crate::store::table::{Record, Row};
use crate::store::wake_events;
use crate::store::wake_events::WakeEventStatus;
use crate::text;
use vstd::prelude::*;

verus! {

/// A field of a JSON object: its value as text and as a number, where it is one of these, and in any
/// case as JSON text.
#[derive(Debug, Clone)]
pub struct Field {
    pub name: String,
    pub text: Option<String>,
    pub number: Option<Number>,
    pub json: String,
}

#[verifier::ext_equal]
pub struct FieldModel {
    pub name: Seq<char>,
    pub text: Option<Seq<char>>,
    pub number: Option<Float>,
    pub json: Seq<char>,
}

impl View for Field {
    type V = FieldModel;

    open spec fn view(&self) -> FieldModel {
        FieldModel {
            name: self.name@,
            text: text::opt(self.text),
            number: crate::system::opt_float(self.number),
            json: self.json@,
        }
    }
}

impl Record for Field {
    fn copy(&self) -> (r: Field) {
        Field {
            name: self.name.clone(),
            text: text::copy_opt(&self.text),
            number: self.number,
            json: self.json.clone(),
        }
    }
}

impl Row for Field {
    open spec fn key_of(m: FieldModel) -> Seq<char> {
        m.name
    }

    open spec fn stamp_of(m: FieldModel) -> Seq<char> {
        m.name
    }

    fn key(&self) -> (r: &str) {
        self.name.as_str()
    }

    fn stamp(&self) -> (r: &str) {
        self.name.as_str()
    }
}

/// The fields of a JSON object; none where a body is no object.
#[derive(Debug, Clone)]
pub struct Body {
    pub fields: Vec<Field>,
}

impl View for Body {
    type V = Seq<FieldModel>;

    open spec fn view(&self) -> Seq<FieldModel> {
        table::models(self.fields@)
    }
}

/// The fields of the JSON object that a text holds; none where it holds no object.
pub uninterp spec fn json_fields(text: Seq<char>) -> Seq<FieldModel>;

/// `serde_json::from_str` into a `serde_json::Value`, and of the object that came of it each name with
/// its value: by `Value::as_str`, by the bits of `Value::as_f64`, and by `Value::to_string`. Nothing
/// comes of a text that is no JSON, or no object.
///
/// The fields are a function of the text. Which texts are objects, and what their fields hold, is left
/// unsaid.
#[verifier::external_body]
fn parse_fields(text: &str) -> (r: Vec<Field>)
    ensures
        table::models(r@) == json_fields(text@),
{
    let mut fields: Vec<Field> = Vec::new();
    if let Ok(serde_json::Value::Object(object)) = serde_json::from_str(text) {
        for (name, value) in object {
            let text = value.as_str().map(|s| s.to_string());
            let number = value.as_f64().map(|x| Number { bits: x.to_bits() });
            fields.push(Field { name, text, number, json: value.to_string() });
        }
    }
    fields
}

/// The text of a field, where it is text.
pub open spec fn field_text(body: Seq<FieldModel>, name: Seq<char>) -> Option<Seq<char>> {
    match table::row::<Field>(body, name) {
        Some(f) => f.text,
        None => None,
    }
}

/// The text of a field, or `missing` where it is no text.
pub open spec fn text_or(body: Seq<FieldModel>, name: Seq<char>, missing: Seq<char>) -> Seq<char> {
    match field_text(body, name) {
        Some(t) => t,
        None => missing,
    }
}

/// The number of a field, where it is a number.
pub open spec fn field_number(body: Seq<FieldModel>, name: Seq<char>) -> Option<Float> {
    match table::row::<Field>(body, name) {
        Some(f) => f.number,
        None => None,
    }
}

/// The JSON text of a field, where it is there.
pub open spec fn field_json(body: Seq<FieldModel>, name: Seq<char>) -> Option<Seq<char>> {
    match table::row::<Field>(body, name) {
        Some(f) => Some(f.json),
        None => None,
    }
}

impl Body {
    /// The fields of the JSON object that a text holds; none where it holds no object.
    pub fn read(text: &str) -> (r: Body)
        ensures
            r@ == json_fields(text@),
    {
        Body { fields: parse_fields(text) }
    }

    /// The text of a field, where it is text.
    pub fn text(&self, name: &str) -> (r: Option<String>)
        ensures
            text::opt(r) == field_text(self@, name@),
    {
        match table::get(&self.fields, name) {
            Some(f) => f.text,
            None => None,
        }
    }

    /// The text of a field, or `missing` where it is no text.
    pub fn text_or(&self, name: &str, missing: &str) -> (r: String)
        ensures
            r@ == text_or(self@, name@, missing@),
    {
        match self.text(name) {
            Some(t) => t,
            None => missing.to_owned(),
        }
    }

    /// The number of a field, where it is a number.
    pub fn number(&self, name: &str) -> (r: Option<Number>)
        ensures
            crate::system::opt_float(r) == field_number(self@, name@),
    {
        match table::get(&self.fields, name) {
            Some(f) => f.number,
            None => None,
        }
    }

    /// The JSON text of a field, where it is there.
    pub fn json(&self, name: &str) -> (r: Option<String>)
        ensures
            text::opt(r) == field_json(self@, name@),
    {
        match table::get(&self.fields, name) {
            Some(f) => Some(f.json),
            None => None,
        }
    }
}

/// A header.
#[derive(Debug, Clone)]
pub struct Header {
    pub name: String,
    pub value: String,
}

/// A call.
#[derive(Debug, Clone)]
pub struct Request {
    pub method: Method,
    /// The method's name, as it is put on record.
    pub method_name: String,
    pub url: String,
    pub headers: Vec<Header>,
    pub body: Body,
}

pub struct HeaderModel {
    pub name: Seq<char>,
    pub value: Seq<char>,
}

#[verifier::ext_equal]
pub struct RequestModel {
    pub method: Method,
    pub method_name: Seq<char>,
    pub url: Seq<char>,
    pub headers: Seq<HeaderModel>,
    pub body: Seq<FieldModel>,
}

impl View for Header {
    type V = HeaderModel;

    open spec fn view(&self) -> HeaderModel {
        HeaderModel { name: self.name@, value: self.value@ }
    }
}

impl View for Request {
    type V = RequestModel;

    open spec fn view(&self) -> RequestModel {
        RequestModel {
            method: self.method,
            method_name: self.method_name@,
            url: self.url@,
            headers: table::models(self.headers@),
            body: self.body@,
        }
    }
}

/// A character with ASCII letters in one case.
pub open spec fn folded(c: char) -> int {
    if 'A' <= c <= 'Z' {
        c as int + 32
    } else {
        c as int
    }
}

/// Whether two names are the same but for the case of ASCII letters.
pub open spec fn same_ignoring_case(a: Seq<char>, b: Seq<char>) -> bool {
    a.len() == b.len() && forall|i: int| 0 <= i < a.len() ==> folded(#[trigger] a[i]) == folded(b[i])
}

fn fold(c: char) -> (r: u32)
    ensures
        r == folded(c),
{
    if 'A' <= c && c <= 'Z' {
        c as u32 + 32
    } else {
        c as u32
    }
}

/// Whether two names are the same but for the case of ASCII letters.
pub fn equal_ignoring_case(a: &str, b: &str) -> (r: bool)
    ensures
        r == same_ignoring_case(a@, b@),
{
    let x = text::chars_of(a);
    let y = text::chars_of(b);
    if x.len() != y.len() {
        return false;
    }
    let mut i: usize = 0;
    while i < x.len()
        invariant
            i <= x.len(),
            x.len() == y.len(),
            x@ == a@,
            y@ == b@,
            forall|k: int| 0 <= k < i ==> folded(#[trigger] x@[k]) == folded(y@[k]),
        decreases x.len() - i,
    {
        if fold(x[i]) != fold(y[i]) {
            return false;
        }
        i = i + 1;
    }
    true
}

/// Whether a header names the caller's token.
pub open spec fn presents(h: HeaderModel, token: Seq<char>) -> bool {
    same_ignoring_case(h.name, "Authorization"@) && h.value == "Bearer "@ + token
}

impl RequestModel {
    /// The path: what stands before the first `?` of the target.
    pub open spec fn path(self) -> Seq<char> {
        match text::split_at_char(self.url, '?') {
            Some((path, _)) => path,
            None => self.url,
        }
    }

    /// The query: what stands behind the first `?` of the target.
    pub open spec fn query(self) -> Seq<char> {
        match text::split_at_char(self.url, '?') {
            Some((_, query)) => query,
            None => Seq::empty(),
        }
    }

    /// Whether a header presents the token.
    pub open spec fn is_authorized(self, token: Seq<char>) -> bool {
        exists|i: int| 0 <= i < self.headers.len() && presents(#[trigger] self.headers[i], token)
    }
}

impl Request {
    /// A call with a JSON text for a body.
    pub fn read(method: Method, method_name: &str, url: &str, headers: Vec<Header>, body: &str) -> (r:
        Request)
        ensures
            r@ == (RequestModel {
                method,
                method_name: method_name@,
                url: url@,
                headers: table::models(headers@),
                body: json_fields(body@),
            }),
    {
        Request {
            method,
            method_name: method_name.to_owned(),
            url: url.to_owned(),
            headers,
            body: Body::read(body),
        }
    }

    /// The path and the query of the target.
    pub fn split_url(&self) -> (r: (String, String))
        ensures
            r.0@ == self@.path(),
            r.1@ == self@.query(),
    {
        match text::split_once(self.url.as_str(), '?') {
            Some(parts) => parts,
            None => (self.url.clone(), String::new()),
        }
    }

    /// Whether a header presents the token.
    pub fn is_authorized(&self, token: &str) -> (r: bool)
        ensures
            r == self@.is_authorized(token@),
    {
        let expected = text::join("Bearer ", token);
        let ghost all = table::models(self.headers@);
        let mut i: usize = 0;
        while i < self.headers.len()
            invariant
                i <= self.headers.len(),
                all == table::models(self.headers@),
                expected@ == "Bearer "@ + token@,
                forall|k: int| 0 <= k < i ==> !presents(#[trigger] all[k], token@),
            decreases self.headers.len() - i,
        {
            let h: &Header = &self.headers[i];
            assert(all[i as int] == h@);
            if equal_ignoring_case(h.name.as_str(), "Authorization") && text::same(
                h.value.as_str(),
                expected.as_str(),
            ) {
                assert(presents(self@.headers[i as int], token@));
                return true;
            }
            i = i + 1;
        }
        false
    }
}

/// The value in a `key=value` pair with that key.
pub open spec fn pair_value(pair: Seq<char>, key: Seq<char>) -> Option<Seq<char>> {
    match text::split_at_char(pair, '=') {
        Some((k, v)) => if k == key {
            Some(v)
        } else {
            None
        },
        None => None,
    }
}

/// The value of the first pair of a query that has a key. Pairs are separated by `&`.
pub open spec fn param(query: Seq<char>, key: Seq<char>) -> Option<Seq<char>>
    decreases query.len(),
{
    match text::split_at_char(query, '&') {
        Some((pair, rest)) => {
            proof {
                text::lemma_split_len(query, '&');
            }
            match pair_value(pair, key) {
                Some(v) => Some(v),
                None => param(rest, key),
            }
        },
        None => pair_value(query, key),
    }
}

/// The value in a `key=value` pair with that key.
fn value_in_pair(pair: &str, key: &str) -> (r: Option<String>)
    ensures
        text::opt(r) == pair_value(pair@, key@),
{
    match text::split_once(pair, '=') {
        Some((k, v)) => if text::same(k.as_str(), key) {
            Some(v)
        } else {
            None
        },
        None => None,
    }
}

/// The value of the first pair of a query that has a key.
pub fn query_param(query: &str, key: &str) -> (r: Option<String>)
    ensures
        text::opt(r) == param(query@, key@),
    decreases query@.len(),
{
    proof {
        text::lemma_split_len(query@, '&');
    }
    match text::split_once(query, '&') {
        Some((pair, rest)) => match value_in_pair(pair.as_str(), key) {
            Some(v) => Some(v),
            None => query_param(rest.as_str(), key),
        },
        None => value_in_pair(query, key),
    }
}

/// The status with a name.
pub open spec fn status_named(name: Seq<char>) -> Option<WakeEventStatus> {
    if wake_events::status_of(name) != WakeEventStatus::Pending || name == "pending"@ {
        Some(wake_events::status_of(name))
    } else {
        None
    }
}

/// The status with a name.
pub fn status_by_name(name: &str) -> (r: Option<WakeEventStatus>)
    ensures
        r == status_named(name@),
{
    let status: WakeEventStatus = WakeEventStatus::from_str(name);
    if status != WakeEventStatus::Pending || text::same(name, "pending") {
        Some(status)
    } else {
        None
    }
}

/// The status that a filter names, as a JSON string without its quotes; a name that is none filters
/// nothing.
pub open spec fn status_in(filter: Seq<char>) -> Option<WakeEventStatus> {
    if json::is_plain(filter) {
        status_named(filter)
    } else {
        match json::json_string(filter) {
            Some(name) => status_named(name),
            None => None,
        }
    }
}

/// The status that a filter names.
pub fn status_filter(filter: &str) -> (r: Option<WakeEventStatus>)
    ensures
        r == status_in(filter@),
{
    match json::unquote(filter) {
        Some(name) => status_by_name(name.as_str()),
        None => None,
    }
}

/// A call presents a token if and only if one of its headers is named `Authorization`, in any case, and
/// holds `Bearer `, a space included, and that token: no part of it, and nothing behind it.
pub proof fn law_token_has_to_be_whole(req: RequestModel, token: Seq<char>, other: Seq<char>)
    ensures
        req.is_authorized(token) <==> exists|i: int|
            0 <= i < req.headers.len() && (#[trigger] req.headers[i]).value == "Bearer "@ + token
                && req.headers[i].name.len() == 13 && forall|k: int|
                0 <= k < 13 ==> (#[trigger] req.headers[i].name[k] == "Authorization"@[k] || (
                'A' <= req.headers[i].name[k] <= 'Z' && req.headers[i].name[k] as int + 32
                    == "Authorization"@[k] as int) || ('A' <= "Authorization"@[k] <= 'Z'
                    && req.headers[i].name[k] as int == "Authorization"@[k] as int + 32)),
        req.headers.len() == 1 && req.is_authorized(token) && req.is_authorized(other) ==> token == other,
{
    reveal_strlit("Authorization");
    let name = "Authorization"@;
    assert forall|i: int| 0 <= i < req.headers.len() implies presents(#[trigger] req.headers[i], token)
        == (req.headers[i].value == "Bearer "@ + token && req.headers[i].name.len() == 13 && forall|
        k: int,
    |
        0 <= k < 13 ==> (#[trigger] req.headers[i].name[k] == name[k] || ('A'
            <= req.headers[i].name[k] <= 'Z' && req.headers[i].name[k] as int + 32
            == name[k] as int) || ('A' <= name[k] <= 'Z' && req.headers[i].name[k] as int
            == name[k] as int + 32))) by {
        let h = req.headers[i].name;
        if same_ignoring_case(h, name) {
            assert forall|k: int| 0 <= k < 13 implies (#[trigger] h[k] == name[k] || ('A' <= h[k] <= 'Z'
                && h[k] as int + 32 == name[k] as int) || ('A' <= name[k] <= 'Z' && h[k] as int
                == name[k] as int + 32)) by {
                assert(folded(h[k]) == folded(name[k]));
            }
        }
    }
    if req.headers.len() == 1 && req.is_authorized(token) && req.is_authorized(other) {
        let n = "Bearer "@.len() as int;
        assert(presents(req.headers[0], token) && presents(req.headers[0], other));
        assert(req.headers[0].value.skip(n) =~= token);
        assert(req.headers[0].value.skip(n) =~= other);
    }
}

/// A target is a path and, behind a question mark, a query.
pub proof fn law_target_is_path_and_query(req: RequestModel, path: Seq<char>, query: Seq<char>)
    requires
        forall|i: int| 0 <= i < path.len() ==> path[i] != '?',
    ensures
        req.url == path ==> req.path() == path && req.query() == Seq::<char>::empty(),
        req.url == path + seq!['?'] + query ==> req.path() == path && req.query() == query,
{
    text::lemma_split_none(path, '?');
    let url = path + seq!['?'] + query;
    assert forall|k: int| 0 <= k < path.len() implies url[k] != '?' by {
        assert(url[k] == path[k]);
    }
    text::lemma_split_at(url, '?', path.len() as int);
    assert(url.take(path.len() as int) =~= path);
    assert(url.skip(path.len() as int + 1) =~= query);
}

/// A parameter of a query has the value of the first pair with its key; pairs stand one behind the other
/// with an ampersand between them.
pub proof fn law_parameter_is_the_first_of_its_key(
    key: Seq<char>,
    value: Seq<char>,
    rest: Seq<char>,
    other: Seq<char>,
)
    requires
        forall|i: int| 0 <= i < key.len() ==> #[trigger] key[i] != '=' && key[i] != '&',
        forall|i: int| 0 <= i < value.len() ==> #[trigger] value[i] != '&',
        other != key,
    ensures
        param(key + seq!['='] + value, key) == Some(value),
        param(key + seq!['='] + value + seq!['&'] + rest, key) == Some(value),
        param(key + seq!['='] + value, other) is None,
        param(key + seq!['='] + value + seq!['&'] + rest, other) == param(rest, other),
{
    let pair = key + seq!['='] + value;
    assert forall|k: int| 0 <= k < key.len() implies pair[k] != '=' by {
        assert(pair[k] == key[k]);
    }
    text::lemma_split_at(pair, '=', key.len() as int);
    assert(pair.take(key.len() as int) =~= key);
    assert(pair.skip(key.len() as int + 1) =~= value);
    assert forall|k: int| 0 <= k < pair.len() implies pair[k] != '&' by {
        if k < key.len() {
            assert(pair[k] == key[k]);
        } else if k > key.len() {
            assert(pair[k] == value[k - key.len() - 1]);
        }
    }
    text::lemma_split_none(pair, '&');
    let query = pair + seq!['&'] + rest;
    assert forall|k: int| 0 <= k < pair.len() implies query[k] != '&' by {
        assert(query[k] == pair[k]);
    }
    text::lemma_split_at(query, '&', pair.len() as int);
    assert(query.take(pair.len() as int) =~= pair);
    assert(query.skip(pair.len() as int + 1) =~= rest);
}

/// A filter that is the name of a status picks that status; one that is no name picks nothing out.
pub proof fn law_status_filter_is_a_name(status: WakeEventStatus, filter: Seq<char>)
    ensures
        status_named(status.name()) == Some(status),
        json::is_plain(filter) ==> (status_in(filter) matches Some(x) ==> x.name() == filter),
{
    wake_events::law_status_name_reads_back(status);
}

} // verus!
