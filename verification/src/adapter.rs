//! The REST-to-relational adapter session.
//!
//! A session holds the configuration of one scan or modify operation and the
//! mutable pagination state.  The host performs transport: it hands each
//! response's status and parsed body to `ingest_page`, asks `next_action`
//! whether to emit a buffered row, fetch another page, or stop, and performs
//! the requests that `build_url` and the mutation planners describe.

use vstd::prelude::*;
use vstd::string::StrSliceExecFns;
use vstd::string::StringExecFns;
use crate::json::{JsonValue, JsonV, spec_pointer};
use crate::strutil;
use crate::strutil::ascii_fold;
use crate::cells::{Cell, CellV, Column, CellPlan, Row};

verus! {

/// The adapter's error taxonomy: transport failures carry the status and the
/// response body text; the remaining variants describe configuration, parse
/// and shape failures.
#[derive(Debug)]
pub enum AdapterError {
    /// A required option was not configured; carries the option name.
    MissingOption(String),
    /// A non-2xx, non-404 response; carries status and body text.
    Transport(u16, String),
    /// The response body was not valid JSON.
    ParseBody,
    /// The configured response path pointed at nothing; carries the path.
    PathNotFound(String),
    /// The value at the response path was neither array nor object.
    NotArrayOrObject,
    /// The response body was neither array nor object.
    Unextractable,
    /// A mutation row id that is not a string or 32/64-bit integer.
    BadRowId,
}

/// Key/value configuration options, looked up by first match.
pub struct OptionBag {
    pub entries: Vec<(String, String)>,
}

/// The view of an option bag: its entries' views in order.
pub open spec fn opts_view(o: OptionBag) -> Seq<(Seq<char>, Seq<char>)> {
    o.entries@.map_values(|kv: (String, String)| (kv.0@, kv.1@))
}

/// First-match lookup of an option key.
pub open spec fn opt_get(entries: Seq<(Seq<char>, Seq<char>)>, key: Seq<char>) -> Option<
    Seq<char>,
>
    decreases entries.len(),
{
    if entries.len() == 0 {
        None
    } else if entries[0].0 == key {
        Some(entries[0].1)
    } else {
        opt_get(entries.drop_first(), key)
    }
}

pub proof fn lemma_opt_get_skip(entries: Seq<(Seq<char>, Seq<char>)>, key: Seq<char>, i: int)
    requires
        0 <= i <= entries.len(),
        forall|j: int| 0 <= j < i ==> entries[j].0 != key,
    ensures
        opt_get(entries, key) == opt_get(entries.skip(i), key),
    decreases i,
{
    if i > 0 {
        assert(entries.drop_first().skip(i - 1) =~= entries.skip(i));
        lemma_opt_get_skip(entries.drop_first(), key, i - 1);
    } else {
        assert(entries.skip(0) =~= entries);
    }
}

impl OptionBag {
    /// Look up an option by name.
    pub fn get(&self, key: &str) -> (r: Option<String>)
        ensures
            match r {
                Some(v) => opt_get(opts_view(*self), key@) == Some(v@),
                None => opt_get(opts_view(*self), key@) is None,
            },
    {
        let ghost gv = opts_view(*self);
        let mut i: usize = 0;
        while i < self.entries.len()
            invariant
                gv == opts_view(*self),
                gv.len() == self.entries@.len(),
                i <= self.entries@.len(),
                forall|j: int| 0 <= j < i ==> gv[j].0 != key@,
            decreases self.entries@.len() - i,
        {
            if strutil::str_eq(self.entries[i].0.as_str(), key) {
                proof {
                    lemma_opt_get_skip(gv, key@, i as int);
                    assert(gv.skip(i as int)[0] == gv[i as int]);
                }
                return Some(self.entries[i].1.clone());
            }
            i = i + 1;
        }
        proof {
            lemma_opt_get_skip(gv, key@, self.entries@.len() as int);
            assert(gv.skip(self.entries@.len() as int).len() == 0);
        }
        None
    }

    /// Look up an option, falling back to a default.
    pub fn require_or(&self, key: &str, default: &str) -> (r: String)
        ensures
            r@ == match opt_get(opts_view(*self), key@) {
                Some(v) => v,
                None => default@,
            },
    {
        match self.get(key) {
            Some(v) => v,
            None => String::from_str(default),
        }
    }

    /// Look up an option that must be configured.
    pub fn require(&self, key: &str) -> (r: Result<String, AdapterError>)
        ensures
            match r {
                Ok(v) => opt_get(opts_view(*self), key@) == Some(v@),
                Err(e) => opt_get(opts_view(*self), key@) is None && e is MissingOption
                    && e->MissingOption_0@ == key@,
            },
    {
        match self.get(key) {
            Some(v) => Ok(v),
            None => Err(AdapterError::MissingOption(key.to_owned())),
        }
    }
}

/// The view of an optional string.
pub open spec fn os(o: Option<String>) -> Option<Seq<char>> {
    match o {
        Some(s) => Some(s@),
        None => None,
    }
}

/// One scan/modify session: configuration plus pagination progress and the
/// buffered page of rows.
pub struct FdwState {
    pub base_url: String,
    pub headers: Vec<(String, String)>,
    pub endpoint: String,
    pub response_path: Option<String>,
    pub object_path: Option<String>,
    pub rowid_col: String,
    pub cursor_param: String,
    pub cursor_path: String,
    pub page_size: usize,
    pub page_size_param: String,
    pub next_cursor: Option<String>,
    pub next_url: Option<String>,
    pub src_rows: Vec<JsonValue>,
    pub src_idx: usize,
}

/// Two states share every configuration field (everything but pagination
/// progress and the row buffer).
pub open spec fn same_config(a: FdwState, b: FdwState) -> bool {
    &&& a.base_url == b.base_url
    &&& a.headers == b.headers
    &&& a.endpoint == b.endpoint
    &&& a.response_path == b.response_path
    &&& a.object_path == b.object_path
    &&& a.rowid_col == b.rowid_col
    &&& a.cursor_param == b.cursor_param
    &&& a.cursor_path == b.cursor_path
    &&& a.page_size == b.page_size
    &&& a.page_size_param == b.page_size_param
}

/// A non-empty string found at a pointer path; `None` for anything else.
pub open spec fn str_at(body: JsonV, path: Seq<char>) -> Option<Seq<char>> {
    match spec_pointer(body, path) {
        Some(JsonV::Str(s)) => if s.len() > 0 {
            Some(s)
        } else {
            None
        },
        _ => None,
    }
}

/// The first non-empty next-page URL among the common locations.
pub open spec fn next_url_probe(body: JsonV) -> Option<Seq<char>> {
    match str_at(body, "/meta/pagination/next"@) {
        Some(u) => Some(u),
        None => match str_at(body, "/pagination/next"@) {
            Some(u) => Some(u),
            None => match str_at(body, "/links/next"@) {
                Some(u) => Some(u),
                None => match str_at(body, "/next"@) {
                    Some(u) => Some(u),
                    None => str_at(body, "/_links/next/href"@),
                },
            },
        },
    }
}

/// The value at the first present more-pages flag location, whatever it is.
pub open spec fn has_more_probe(body: JsonV) -> Option<JsonV> {
    match spec_pointer(body, "/meta/pagination/has_more"@) {
        Some(v) => Some(v),
        None => match spec_pointer(body, "/has_more"@) {
            Some(v) => Some(v),
            None => spec_pointer(body, "/pagination/has_more"@),
        },
    }
}

/// Whether the body flags more pages: the first present flag location,
/// read as a boolean, defaulting to false.
pub open spec fn has_more(body: JsonV) -> bool {
    match has_more_probe(body) {
        Some(JsonV::Bool(b)) => b,
        _ => false,
    }
}

/// The first non-empty cursor among the common locations.
pub open spec fn next_cursor_probe(body: JsonV) -> Option<Seq<char>> {
    match str_at(body, "/meta/pagination/next_cursor"@) {
        Some(s) => Some(s),
        None => match str_at(body, "/pagination/next_cursor"@) {
            Some(s) => Some(s),
            None => match str_at(body, "/next_cursor"@) {
                Some(s) => Some(s),
                None => str_at(body, "/cursor"@),
            },
        },
    }
}

/// The pagination continuation a response body yields, as the pair
/// `(next_cursor, next_url)`: a configured cursor path wins; otherwise a
/// next-page URL at a common location; otherwise, when the body flags more
/// pages, a cursor at a common location.  At most one of the two is set.
pub open spec fn pagination_of(cursor_path: Seq<char>, body: JsonV) -> (
    Option<Seq<char>>,
    Option<Seq<char>>,
) {
    if cursor_path.len() > 0 && str_at(body, cursor_path) is Some {
        (str_at(body, cursor_path), None)
    } else if body is Obj {
        if next_url_probe(body) is Some {
            (None, next_url_probe(body))
        } else if has_more(body) {
            (next_cursor_probe(body), None)
        } else {
            (None, None)
        }
    } else {
        (None, None)
    }
}

/// Probe one pointer path for a non-empty string.
fn str_probe(body: &JsonValue, path: &str) -> (r: Option<String>)
    ensures
        os(r) == str_at(body@, path@),
{
    match body.pointer(path) {
        Some(JsonValue::Str(s)) => {
            if s.as_str().is_empty() {
                None
            } else {
                Some(s.clone())
            }
        },
        _ => None,
    }
}

/// The rows a response body yields, or the shape failure it exposes.
pub enum ExtractV {
    Rows(Seq<JsonV>),
    PathNotFound,
    NotArrayOrObject,
    Unextractable,
}

/// The object keys probed, in order, for the row collection of a response
/// that is an object without a configured response path.
pub open spec fn data_keys() -> Seq<Seq<char>> {
    seq!["data"@, "results"@, "items"@, "records"@, "entries"@, "features"@]
}

/// The first probed key holding an array or object value: an array is the
/// row sequence, an object a one-row sequence.
pub open spec fn probe_keys(fields: Seq<(Seq<char>, JsonV)>, keys: Seq<Seq<char>>) -> Option<
    Seq<JsonV>,
>
    decreases keys.len(),
{
    if keys.len() == 0 {
        None
    } else {
        match crate::json::obj_get(fields, keys[0]) {
            Some(JsonV::Arr(items)) => Some(items),
            Some(JsonV::Obj(f)) => Some(seq![JsonV::Obj(f)]),
            _ => probe_keys(fields, keys.drop_first()),
        }
    }
}

/// The rows of a response body.  A configured response path is followed
/// first: an array there is the row sequence, an object a single row, and
/// anything else a shape error.  Without a path, an array body is the row
/// sequence; an object body is probed for the common data keys and otherwise
/// is itself a single row; any other body is an error.
pub open spec fn extract_spec(response_path: Option<Seq<char>>, body: JsonV) -> ExtractV {
    match response_path {
        Some(p) => match spec_pointer(body, p) {
            None => ExtractV::PathNotFound,
            Some(JsonV::Arr(items)) => ExtractV::Rows(items),
            Some(JsonV::Obj(f)) => ExtractV::Rows(seq![JsonV::Obj(f)]),
            Some(_) => ExtractV::NotArrayOrObject,
        },
        None => match body {
            JsonV::Arr(items) => ExtractV::Rows(items),
            JsonV::Obj(fields) => match probe_keys(fields, data_keys()) {
                Some(rows) => ExtractV::Rows(rows),
                None => ExtractV::Rows(seq![JsonV::Obj(fields)]),
            },
            _ => ExtractV::Unextractable,
        },
    }
}

/// Duplicate an array's elements into a row buffer.
fn dup_rows(items: &Vec<JsonValue>) -> (r: Vec<JsonValue>)
    ensures
        crate::json::jv_list(r@) == crate::json::jv_list(items@),
{
    let mut out: Vec<JsonValue> = Vec::new();
    let mut i: usize = 0;
    proof {
        crate::json::lemma_jv_list_len(items@);
    }
    while i < items.len()
        invariant
            crate::json::jv_list(items@).len() == items@.len(),
            i <= items@.len(),
            crate::json::jv_list(out@).len() == i as int,
            forall|j: int| 0 <= j < i ==> crate::json::jv_list(out@)[j] == crate::json::jv_list(
                items@,
            )[j],
        decreases items@.len() - i,
    {
        let e = items[i].dup();
        proof {
            crate::json::lemma_jv_list_push(out@, e);
            crate::json::lemma_jv_list_index(items@, i as int);
        }
        out.push(e);
        i = i + 1;
    }
    proof {
        assert(crate::json::jv_list(out@) =~= crate::json::jv_list(items@));
    }
    out
}

impl FdwState {
    /// A fresh, unconfigured session.
    pub fn new() -> (r: FdwState)
        ensures
            r.base_url@ == Seq::<char>::empty(),
            r.headers@.len() == 0,
            r.endpoint@ == Seq::<char>::empty(),
            r.response_path is None,
            r.object_path is None,
            r.rowid_col@ == Seq::<char>::empty(),
            r.cursor_param@ == Seq::<char>::empty(),
            r.cursor_path@ == Seq::<char>::empty(),
            r.page_size == 0,
            r.page_size_param@ == Seq::<char>::empty(),
            r.next_cursor is None,
            r.next_url is None,
            r.src_rows@.len() == 0,
            r.src_idx == 0,
    {
        FdwState {
            base_url: String::new(),
            headers: Vec::new(),
            endpoint: String::new(),
            response_path: None,
            object_path: None,
            rowid_col: String::new(),
            cursor_param: String::new(),
            cursor_path: String::new(),
            page_size: 0,
            page_size_param: String::new(),
            next_cursor: None,
            next_url: None,
            src_rows: Vec::new(),
            src_idx: 0,
        }
    }

    /// Extract the row sequence from a response body, per `extract_spec`.
    pub fn extract_data(&self, resp: &JsonValue) -> (r: Result<Vec<JsonValue>, AdapterError>)
        ensures
            match r {
                Ok(rows) => extract_spec(os(self.response_path), resp@) == ExtractV::Rows(
                    crate::json::jv_list(rows@),
                ),
                Err(e) => match e {
                    AdapterError::PathNotFound(p) => self.response_path is Some
                        && p@ == self.response_path->0@ && extract_spec(
                        os(self.response_path),
                        resp@,
                    ) is PathNotFound,
                    AdapterError::NotArrayOrObject => extract_spec(
                        os(self.response_path),
                        resp@,
                    ) is NotArrayOrObject,
                    AdapterError::Unextractable => extract_spec(
                        os(self.response_path),
                        resp@,
                    ) is Unextractable,
                    _ => false,
                },
            },
    {
        match &self.response_path {
            Some(path) => {
                let data = match resp.pointer(path.as_str()) {
                    None => {
                        return Err(AdapterError::PathNotFound(path.clone()));
                    },
                    Some(d) => d,
                };
                match data {
                    JsonValue::Arr(items) => Ok(dup_rows(items)),
                    JsonValue::Obj(_) => {
                        let mut one: Vec<JsonValue> = Vec::new();
                        let d = data.dup();
                        proof {
                            crate::json::lemma_jv_list_push(one@, d);
                        }
                        one.push(d);
                        Ok(one)
                    },
                    _ => Err(AdapterError::NotArrayOrObject),
                }
            },
            None => {
                match resp {
                    JsonValue::Arr(items) => Ok(dup_rows(items)),
                    JsonValue::Obj(fields) => {
                        let keys = ["data", "results", "items", "records", "entries", "features"];
                        let ghost gkeys = data_keys();
                        let mut k: usize = 0;
                        proof {
                            assert(gkeys.skip(0) =~= gkeys);
                        }
                        while k < 6
                            invariant
                                self.response_path is None,
                                *resp == JsonValue::Obj(*fields),
                                gkeys == data_keys(),
                                k <= 6,
                                probe_keys(crate::json::jv_obj(fields@), gkeys)
                                    == probe_keys(
                                    crate::json::jv_obj(fields@),
                                    gkeys.skip(k as int),
                                ),
                            decreases 6 - k,
                        {
                            let key: &str = if k == 0 {
                                "data"
                            } else if k == 1 {
                                "results"
                            } else if k == 2 {
                                "items"
                            } else if k == 3 {
                                "records"
                            } else if k == 4 {
                                "entries"
                            } else {
                                "features"
                            };
                            proof {
                                assert(gkeys.skip(k as int)[0] == gkeys[k as int]);
                                assert(key@ == gkeys[k as int]);
                                assert(gkeys.skip(k as int).drop_first() =~= gkeys.skip(
                                    k as int + 1,
                                ));
                            }
                            match crate::json::obj_find(fields, key) {
                                Some(JsonValue::Arr(items)) => {
                                    let rows = dup_rows(items);
                                    proof {
                                        assert(probe_keys(
                                            crate::json::jv_obj(fields@),
                                            gkeys.skip(k as int),
                                        ) == Some(crate::json::jv_list(items@)));
                                    }
                                    return Ok(rows);
                                },
                                Some(d @ JsonValue::Obj(_)) => {
                                    let mut one: Vec<JsonValue> = Vec::new();
                                    let dd = d.dup();
                                    proof {
                                        crate::json::lemma_jv_list_push(one@, dd);
                                    }
                                    one.push(dd);
                                    proof {
                                        assert(probe_keys(
                                            crate::json::jv_obj(fields@),
                                            gkeys.skip(k as int),
                                        ) == Some(seq![d@]));
                                        assert(crate::json::jv_list(one@) =~= seq![d@]);
                                    }
                                    return Ok(one);
                                },
                                _ => {},
                            }
                            k = k + 1;
                        }
                        proof {
                            assert(gkeys.skip(6).len() == 0);
                        }
                        let mut one: Vec<JsonValue> = Vec::new();
                        let d = resp.dup();
                        proof {
                            crate::json::lemma_jv_list_push(one@, d);
                        }
                        one.push(d);
                        Ok(one)
                    },
                    _ => Err(AdapterError::Unextractable),
                }
            },
        }
    }

    /// Read the pagination continuation out of a response body, per
    /// `pagination_of`: both fields are reset first, and at most one is set.
    pub fn handle_pagination(&mut self, resp: &JsonValue)
        ensures
            same_config(*old(self), *final(self)),
            final(self).src_rows == old(self).src_rows,
            final(self).src_idx == old(self).src_idx,
            os(final(self).next_cursor) == pagination_of(
                old(self).cursor_path@,
                resp@,
            ).0,
            os(final(self).next_url) == pagination_of(old(self).cursor_path@, resp@).1,
    {
        self.next_cursor = None;
        self.next_url = None;
        if !self.cursor_path.as_str().is_empty() {
            match str_probe(resp, self.cursor_path.as_str()) {
                Some(s) => {
                    self.next_cursor = Some(s);
                    return ;
                },
                None => {},
            }
        }
        let is_obj = match resp {
            JsonValue::Obj(_) => true,
            _ => false,
        };
        if !is_obj {
            return ;
        }
        match str_probe(resp, "/meta/pagination/next") {
            Some(u) => {
                self.next_url = Some(u);
                return ;
            },
            None => {},
        }
        match str_probe(resp, "/pagination/next") {
            Some(u) => {
                self.next_url = Some(u);
                return ;
            },
            None => {},
        }
        match str_probe(resp, "/links/next") {
            Some(u) => {
                self.next_url = Some(u);
                return ;
            },
            None => {},
        }
        match str_probe(resp, "/next") {
            Some(u) => {
                self.next_url = Some(u);
                return ;
            },
            None => {},
        }
        match str_probe(resp, "/_links/next/href") {
            Some(u) => {
                self.next_url = Some(u);
                return ;
            },
            None => {},
        }
        let flag = match resp.pointer("/meta/pagination/has_more") {
            Some(v) => Some(v),
            None => match resp.pointer("/has_more") {
                Some(v) => Some(v),
                None => resp.pointer("/pagination/has_more"),
            },
        };
        let more = match flag {
            Some(JsonValue::Bool(b)) => *b,
            _ => false,
        };
        if !more {
            return ;
        }
        match str_probe(resp, "/meta/pagination/next_cursor") {
            Some(s) => {
                self.next_cursor = Some(s);
                return ;
            },
            None => {},
        }
        match str_probe(resp, "/pagination/next_cursor") {
            Some(s) => {
                self.next_cursor = Some(s);
                return ;
            },
            None => {},
        }
        match str_probe(resp, "/next_cursor") {
            Some(s) => {
                self.next_cursor = Some(s);
                return ;
            },
            None => {},
        }
        match str_probe(resp, "/cursor") {
            Some(s) => {
                self.next_cursor = Some(s);
                return ;
            },
            None => {},
        }
    }

    /// Take in one fetched page.  A 404 yields an empty buffer and clears
    /// the pagination continuation without error; any other non-2xx status
    /// is a transport error carrying the body text; otherwise the parsed
    /// body's rows are buffered and the pagination continuation advanced.
    /// The caller passes `body == None` when the body text was not valid
    /// JSON.  On an error the session is left unchanged.
    pub fn ingest_page(
        &mut self,
        status: u16,
        body_text: &str,
        body: Option<&JsonValue>,
    ) -> (r: Result<(), AdapterError>)
        ensures
            same_config(*old(self), *final(self)),
            status == 404 ==> r is Ok && final(self).src_rows@.len() == 0 && final(self).src_idx
                == 0 && final(self).next_cursor is None && final(self).next_url is None,
            status != 404 && !(200 <= status < 300) ==> r is Err && r->Err_0 is Transport
                && r->Err_0->Transport_0 == status && r->Err_0->Transport_1@ == body_text@
                && *final(self) == *old(self),
            status != 404 && 200 <= status < 300 && body is None ==> r == Err::<
                (),
                AdapterError,
            >(AdapterError::ParseBody) && *final(self) == *old(self),
            status != 404 && 200 <= status < 300 && body is Some ==> match extract_spec(
                os(old(self).response_path),
                body->0@,
            ) {
                ExtractV::Rows(rows) => r is Ok && crate::json::jv_list(final(self).src_rows@)
                    == rows && final(self).src_idx == 0 && os(final(self).next_cursor)
                    == pagination_of(old(self).cursor_path@, body->0@).0 && os(
                    final(self).next_url,
                ) == pagination_of(old(self).cursor_path@, body->0@).1,
                _ => r is Err && *final(self) == *old(self),
            },
    {
        if status == 404 {
            self.src_rows = Vec::new();
            self.src_idx = 0;
            self.next_cursor = None;
            self.next_url = None;
            return Ok(());
        }
        if !(200 <= status && status < 300) {
            return Err(AdapterError::Transport(status, body_text.to_owned()));
        }
        let resp = match body {
            None => {
                return Err(AdapterError::ParseBody);
            },
            Some(v) => v,
        };
        let rows = match self.extract_data(resp) {
            Ok(rows) => rows,
            Err(e) => {
                return Err(e);
            },
        };
        self.src_rows = rows;
        self.src_idx = 0;
        self.handle_pagination(resp);
        Ok(())
    }
}


/// A filter predicate pushed down by the host: column, operator, value.
pub struct Qual {
    pub field: String,
    pub operator: String,
    pub value: QualValue,
}

/// The value of a filter predicate: a single cell, or a list (as in a set
/// membership test), which the adapter does not push down.
pub enum QualValue {
    Single(Cell),
    Multi(Vec<Cell>),
}

/// Whether a qual targets the identifier column with equality: the column
/// name matches case-insensitively and the operator is `=`.
pub open spec fn qual_is_id(q: Qual, rowid: Seq<char>) -> bool {
    ascii_fold(q.field@) == ascii_fold(rowid) && q.operator@ == "="@
}

/// The first qual targeting the identifier column with equality.
pub open spec fn find_id_qual(quals: Seq<Qual>, rowid: Seq<char>) -> Option<Qual>
    decreases quals.len(),
{
    if quals.len() == 0 {
        None
    } else if qual_is_id(quals[0], rowid) {
        Some(quals[0])
    } else {
        find_id_qual(quals.drop_first(), rowid)
    }
}

pub proof fn lemma_find_id_skip(quals: Seq<Qual>, rowid: Seq<char>, i: int)
    requires
        0 <= i <= quals.len(),
        forall|j: int| 0 <= j < i ==> !qual_is_id(#[trigger] quals[j], rowid),
    ensures
        find_id_qual(quals, rowid) == find_id_qual(quals.skip(i), rowid),
    decreases i,
{
    if i > 0 {
        assert(quals.drop_first().skip(i - 1) =~= quals.skip(i));
        lemma_find_id_skip(quals.drop_first(), rowid, i - 1);
    } else {
        assert(quals.skip(0) =~= quals);
    }
}

/// The query-parameter rendering of a qual's value: strings, 32- and 64-bit
/// integers and booleans; no other kind is pushed down.
pub open spec fn cell_param_text(c: CellV) -> Option<Seq<char>> {
    match c {
        CellV::Text(s) => Some(s),
        CellV::I32(i) => Some(strutil::dec_str_signed(i)),
        CellV::I64(i) => Some(strutil::dec_str_signed(i)),
        CellV::Bool(b) => if b {
            Some("true"@)
        } else {
            Some("false"@)
        },
        _ => None,
    }
}

/// The query parameter one qual contributes to a list request: the
/// identifier column and anything but a single-cell equality on a renderable
/// kind contribute nothing.
pub open spec fn qual_param(q: Qual, rowid: Seq<char>) -> Option<Seq<char>> {
    if q.field@ == rowid {
        None
    } else if q.operator@ != "="@ {
        None
    } else {
        match q.value {
            QualValue::Single(c) => match cell_param_text(c@) {
                Some(t) => Some(q.field@ + seq!['='] + t),
                None => None,
            },
            QualValue::Multi(_) => None,
        }
    }
}

/// The query parameters the quals contribute, in order.
pub open spec fn qual_params(quals: Seq<Qual>, rowid: Seq<char>) -> Seq<Seq<char>>
    decreases quals.len(),
{
    if quals.len() == 0 {
        Seq::empty()
    } else {
        (match qual_param(quals[0], rowid) {
            Some(p) => seq![p],
            None => Seq::empty(),
        }) + qual_params(quals.drop_first(), rowid)
    }
}

/// The pagination query parameters: the cursor captured from the previous
/// page, then the page size when one is configured.
pub open spec fn pag_params(st: FdwState) -> Seq<Seq<char>> {
    (match os(st.next_cursor) {
        Some(c) => seq![st.cursor_param@ + seq!['='] + c],
        None => Seq::<Seq<char>>::empty(),
    }) + (if st.page_size > 0 && st.page_size_param@.len() > 0 {
        seq![st.page_size_param@ + seq!['='] + strutil::dec_str(st.page_size as nat)]
    } else {
        Seq::<Seq<char>>::empty()
    })
}

/// The URL of a list request: endpoint under the base URL, with the
/// pagination parameters and then the pushed-down equality filters appended;
/// a next-page URL captured from the previous response is reused verbatim.
pub open spec fn list_url(st: FdwState, quals: Seq<Qual>) -> Seq<char> {
    match os(st.next_url) {
        Some(u) => u,
        None => {
            let params = pag_params(st) + qual_params(quals, st.rowid_col@);
            if params.len() == 0 {
                st.base_url@ + st.endpoint@
            } else {
                st.base_url@ + st.endpoint@ + seq!['?'] + strutil::join_with(params, '&')
            }
        },
    }
}

/// The URL of a scan request.  A filter equating the identifier column with
/// a literal string targets the single resource directly, bypassing
/// pagination and every other filter; otherwise this is `list_url`.
pub open spec fn url_of(st: FdwState, quals: Seq<Qual>) -> Seq<char> {
    match find_id_qual(quals, st.rowid_col@) {
        Some(q) => match q.value {
            QualValue::Single(c) => match c {
                Cell::Text(id) => st.base_url@ + st.endpoint@ + seq!['/'] + id@,
                _ => list_url(st, quals),
            },
            _ => list_url(st, quals),
        },
        None => list_url(st, quals),
    }
}

/// How a scan proceeds: emit the next buffered row, fetch another page, or
/// finish.
#[derive(Clone, Copy, PartialEq, Eq, Structural, Debug)]
pub enum ScanAction {
    Emit,
    FetchMore,
    Done,
}

/// The row a buffered page entry yields: the configured object path projects
/// into a nested object, an unresolvable path leaving the entry whole.
pub open spec fn effective_row(object_path: Option<Seq<char>>, row: JsonV) -> JsonV {
    match object_path {
        Some(p) => match spec_pointer(row, p) {
            Some(v) => v,
            None => row,
        },
        None => row,
    }
}

impl FdwState {
    /// Build the URL of the next scan request, per `url_of`.
    pub fn build_url(&self, quals: &Vec<Qual>) -> (r: String)
        ensures
            r@ == url_of(*self, quals@),
    {
        let mut i: usize = 0;
        let n: usize = quals.len();
        while i < n
            invariant
                n == quals@.len(),
                i <= n,
                forall|j: int| 0 <= j < i ==> !qual_is_id(#[trigger] quals@[j], self.rowid_col@),
            decreases n - i,
        {
            if strutil::str_eq_fold(quals[i].field.as_str(), self.rowid_col.as_str())
                && strutil::str_eq(quals[i].operator.as_str(), "=") {
                proof {
                    lemma_find_id_skip(quals@, self.rowid_col@, i as int);
                    assert(quals@.skip(i as int)[0] == quals@[i as int]);
                    assert(quals@.skip(i as int).len() > 0);
                }
                match &quals[i].value {
                    QualValue::Single(Cell::Text(id)) => {
                        let mut out = self.base_url.clone();
                        out.append(self.endpoint.as_str());
                        out.push('/');
                        out.append(id.as_str());
                        proof {
                            assert(out@ =~= self.base_url@ + self.endpoint@ + seq!['/'] + id@);
                        }
                        return out;
                    },
                    _ => {
                        return self.list_request_url(quals);
                    },
                }
            }
            i = i + 1;
        }
        proof {
            lemma_find_id_skip(quals@, self.rowid_col@, n as int);
            assert(quals@.skip(n as int).len() == 0);
        }
        self.list_request_url(quals)
    }

    /// Build the URL of a list request, per `list_url`.
    fn list_request_url(&self, quals: &Vec<Qual>) -> (r: String)
        ensures
            r@ == list_url(*self, quals@),
    {
        match &self.next_url {
            Some(u) => u.clone(),
            None => {
                let mut params: Vec<String> = Vec::new();
                match &self.next_cursor {
                    Some(c) => {
                        let mut p = self.cursor_param.clone();
                        p.push('=');
                        p.append(c.as_str());
                        proof {
                            assert(p@ =~= self.cursor_param@ + seq!['='] + c@);
                        }
                        params.push(p);
                    },
                    None => {},
                }
                if self.page_size > 0 && !self.page_size_param.as_str().is_empty() {
                    let mut p = self.page_size_param.clone();
                    p.push('=');
                    let num = strutil::u64_to_string(self.page_size as u64);
                    p.append(num.as_str());
                    proof {
                        assert(p@ =~= self.page_size_param@ + seq!['='] + strutil::dec_str(
                            self.page_size as nat,
                        ));
                    }
                    params.push(p);
                }
                let ghost base = pag_params(*self);
                proof {
                    assert(params@.map_values(|s: String| s@) =~= base);
                }
                let mut i: usize = 0;
                let n: usize = quals.len();
                let ghost full = base + qual_params(quals@, self.rowid_col@);
                proof {
                    assert(quals@.skip(0) =~= quals@);
                }
                while i < n
                    invariant
                        n == quals@.len(),
                        i <= n,
                        full == base + qual_params(quals@, self.rowid_col@),
                        full =~= params@.map_values(|s: String| s@) + qual_params(
                            quals@.skip(i as int),
                            self.rowid_col@,
                        ),
                    decreases n - i,
                {
                    proof {
                        assert(quals@.skip(i as int)[0] == quals@[i as int]);
                        assert(quals@.skip(i as int).drop_first() =~= quals@.skip(i as int + 1));
                    }
                    let q = &quals[i];
                    let ghost pre = params@;
                    if !strutil::str_eq(q.field.as_str(), self.rowid_col.as_str())
                        && strutil::str_eq(q.operator.as_str(), "=") {
                        match &q.value {
                            QualValue::Single(c) => {
                                let text: Option<String> = match c {
                                    Cell::Text(s) => Some(s.clone()),
                                    Cell::I32(v) => Some(strutil::i32_to_string(*v)),
                                    Cell::I64(v) => Some(strutil::i64_to_string(*v)),
                                    Cell::Bool(b) => Some(strutil::bool_to_string(*b)),
                                    _ => None,
                                };
                                match text {
                                    Some(t) => {
                                        let mut p = q.field.clone();
                                        p.push('=');
                                        p.append(t.as_str());
                                        proof {
                                            assert(p@ =~= q.field@ + seq!['='] + t@);
                                        }
                                        params.push(p);
                                        proof {
                                            assert(params@.map_values(|s: String| s@)
                                                =~= pre.map_values(|s: String| s@).push(p@));
                                        }
                                    },
                                    None => {},
                                }
                            },
                            QualValue::Multi(_) => {},
                        }
                    }
                    i = i + 1;
                    proof {
                        assert(full =~= params@.map_values(|s: String| s@) + qual_params(
                            quals@.skip(i as int),
                            self.rowid_col@,
                        ));
                    }
                }
                proof {
                    assert(qual_params(quals@.skip(n as int), self.rowid_col@)
                        =~= Seq::<Seq<char>>::empty());
                    assert(params@.map_values(|s: String| s@) =~= full);
                }
                let mut out = self.base_url.clone();
                out.append(self.endpoint.as_str());
                if params.len() > 0 {
                    out.push('?');
                    let joined = strutil::join_strings(&params, '&');
                    out.append(joined.as_str());
                    proof {
                        assert(out@ =~= self.base_url@ + self.endpoint@ + seq!['?']
                            + strutil::join_with(full, '&'));
                    }
                } else {
                    proof {
                        assert(full.len() == 0);
                        assert(out@ =~= self.base_url@ + self.endpoint@);
                    }
                }
                out
            },
        }
    }

    /// What the scan should do next: emit a buffered row if one is left,
    /// fetch another page if a continuation was captured, else finish.
    pub fn next_action(&self) -> (r: ScanAction)
        ensures
            (r is Emit) == (self.src_idx < self.src_rows@.len()),
            (r is FetchMore) == (self.src_idx >= self.src_rows@.len() && (self.next_cursor is Some
                || self.next_url is Some)),
            (r is Done) == (self.src_idx >= self.src_rows@.len() && self.next_cursor is None
                && self.next_url is None),
    {
        if self.src_idx < self.src_rows.len() {
            ScanAction::Emit
        } else if self.next_cursor.is_some() || self.next_url.is_some() {
            ScanAction::FetchMore
        } else {
            ScanAction::Done
        }
    }

    /// Convert the current buffered row for the given target columns and
    /// advance past it.  The object path, when configured, projects each row
    /// first.
    pub fn row_plans(&mut self, columns: &Vec<Column>) -> (r: Vec<CellPlan>)
        requires
            old(self).src_idx < old(self).src_rows@.len(),
        ensures
            same_config(*old(self), *final(self)),
            final(self).next_cursor == old(self).next_cursor,
            final(self).next_url == old(self).next_url,
            final(self).src_rows == old(self).src_rows,
            final(self).src_idx == old(self).src_idx + 1,
            r@.len() == columns@.len(),
            forall|i: int| 0 <= i < columns@.len() ==> #[trigger] r@[i]@ == crate::cells::plan_of(
                effective_row(
                    os(old(self).object_path),
                    crate::json::jv_list(old(self).src_rows@)[old(self).src_idx as int],
                ),
                columns@[i].name@,
                columns@[i].col_type,
            ),
    {
        proof {
            crate::json::lemma_jv_list_index(self.src_rows@, self.src_idx as int);
        }
        let cap: usize = self.src_rows.len();
        let row = &self.src_rows[self.src_idx];
        let eff: &JsonValue = match &self.object_path {
            Some(p) => match row.pointer(p.as_str()) {
                Some(v) => v,
                None => row,
            },
            None => row,
        };
        let ghost geff = effective_row(
            os(self.object_path),
            crate::json::jv_list(self.src_rows@)[self.src_idx as int],
        );
        proof {
            assert(eff@ == geff);
        }
        let mut out: Vec<CellPlan> = Vec::new();
        let mut i: usize = 0;
        while i < columns.len()
            invariant
                eff@ == geff,
                i <= columns@.len(),
                out@.len() == i as int,
                forall|j: int| 0 <= j < i ==> #[trigger] out@[j]@ == crate::cells::plan_of(
                    geff,
                    columns@[j].name@,
                    columns@[j].col_type,
                ),
            decreases columns@.len() - i,
        {
            let plan = crate::cells::json_to_cell(eff, &columns[i]);
            out.push(plan);
            i = i + 1;
        }
        self.src_idx = self.src_idx + 1;
        out
    }

    /// Forget the pagination continuation, as a rescan does before its first
    /// request.
    pub fn reset_pagination(&mut self)
        ensures
            same_config(*old(self), *final(self)),
            final(self).next_cursor is None,
            final(self).next_url is None,
            final(self).src_rows == old(self).src_rows,
            final(self).src_idx == old(self).src_idx,
    {
        self.next_cursor = None;
        self.next_url = None;
    }

    /// Drop the buffered rows, as the end of a scan does.
    pub fn end_scan(&mut self)
        ensures
            same_config(*old(self), *final(self)),
            final(self).next_cursor == old(self).next_cursor,
            final(self).next_url == old(self).next_url,
            final(self).src_rows@.len() == 0,
            final(self).src_idx == 0,
    {
        self.src_rows = Vec::new();
        self.src_idx = 0;
    }

    /// Configure the session for one scan from the table options:
    /// `endpoint` is required; the identifier column defaults to `id`; the
    /// pagination settings may be overridden per table; the pagination
    /// continuation is reset.  On a missing `endpoint` the session is left
    /// unchanged.
    pub fn begin_scan_opts(&mut self, opts: &OptionBag) -> (r: Result<(), AdapterError>)
        ensures
            match r {
                Ok(_) => {
                    let o = opts_view(*opts);
                    &&& opt_get(o, "endpoint"@) == Some(final(self).endpoint@)
                    &&& final(self).rowid_col@ == match opt_get(o, "rowid_column"@) {
                        Some(v) => v,
                        None => "id"@,
                    }
                    &&& os(final(self).response_path) == opt_get(o, "response_path"@)
                    &&& os(final(self).object_path) == opt_get(o, "object_path"@)
                    &&& final(self).cursor_path@ == match opt_get(o, "cursor_path"@) {
                        Some(v) => v,
                        None => Seq::<char>::empty(),
                    }
                    &&& final(self).cursor_param@ == match opt_get(o, "cursor_param"@) {
                        Some(v) => v,
                        None => old(self).cursor_param@,
                    }
                    &&& final(self).page_size_param@ == match opt_get(o, "page_size_param"@) {
                        Some(v) => v,
                        None => old(self).page_size_param@,
                    }
                    &&& final(self).page_size == spec_page_size_or(o, old(self).page_size)
                    &&& final(self).next_cursor is None
                    &&& final(self).next_url is None
                    &&& final(self).base_url == old(self).base_url
                    &&& final(self).headers == old(self).headers
                },
                Err(e) => e is MissingOption && e->MissingOption_0@ == "endpoint"@ && opt_get(
                    opts_view(*opts),
                    "endpoint"@,
                ) is None && *final(self) == *old(self),
            },
    {
        let endpoint = match opts.require("endpoint") {
            Ok(v) => v,
            Err(e) => {
                return Err(e);
            },
        };
        self.endpoint = endpoint;
        self.rowid_col = opts.require_or("rowid_column", "id");
        self.response_path = opts.get("response_path");
        self.object_path = opts.get("object_path");
        self.cursor_path = opts.require_or("cursor_path", "");
        match opts.get("cursor_param") {
            Some(p) => {
                self.cursor_param = p;
            },
            None => {},
        }
        match opts.get("page_size_param") {
            Some(p) => {
                self.page_size_param = p;
            },
            None => {},
        }
        match opts.get("page_size") {
            Some(sz) => {
                match strutil::parse_dec_usize(sz.as_str()) {
                    Some(v) => {
                        self.page_size = v;
                    },
                    None => {},
                }
            },
            None => {},
        }
        self.next_cursor = None;
        self.next_url = None;
        proof {
            reveal_strlit("");
            assert(""@ =~= Seq::<char>::empty());
        }
        Ok(())
    }

    /// Configure the session for mutations from the table options:
    /// `endpoint` and `rowid_column` are both required.
    pub fn begin_modify_opts(&mut self, opts: &OptionBag) -> (r: Result<(), AdapterError>)
        ensures
            match r {
                Ok(_) => {
                    let o = opts_view(*opts);
                    &&& opt_get(o, "endpoint"@) == Some(final(self).endpoint@)
                    &&& opt_get(o, "rowid_column"@) == Some(final(self).rowid_col@)
                    &&& final(self).base_url == old(self).base_url
                    &&& final(self).headers == old(self).headers
                },
                Err(e) => e is MissingOption && (opt_get(opts_view(*opts), "endpoint"@) is None
                    || opt_get(opts_view(*opts), "rowid_column"@) is None),
            },
    {
        let endpoint = match opts.require("endpoint") {
            Ok(v) => v,
            Err(e) => {
                return Err(e);
            },
        };
        let rowid = match opts.require("rowid_column") {
            Ok(v) => v,
            Err(e) => {
                return Err(e);
            },
        };
        self.endpoint = endpoint;
        self.rowid_col = rowid;
        Ok(())
    }
}

/// The page size a table's options select: a decimal `page_size` option, or
/// the session's current value when absent or unparsable.
pub open spec fn spec_page_size_or(o: Seq<(Seq<char>, Seq<char>)>, current: usize) -> usize {
    match opt_get(o, "page_size"@) {
        Some(v) => if v.len() > 0 && strutil::all_digits(v) && strutil::dec_val(v) <= usize::MAX {
            strutil::dec_val(v) as usize
        } else {
            current
        },
        None => current,
    }
}

/// The HTTP methods the adapter issues.
#[derive(Clone, Copy, PartialEq, Eq, Structural, Debug)]
pub enum HttpMethod {
    Get,
    Post,
    Patch,
    Delete,
}

/// One outbound request, ready for the host's transport.
pub struct RequestPlan {
    pub method: HttpMethod,
    pub url: String,
    pub headers: Vec<(String, String)>,
    pub body: String,
}

/// The view of a header list.
pub open spec fn kvs(v: Seq<(String, String)>) -> Seq<(Seq<char>, Seq<char>)> {
    v.map_values(|kv: (String, String)| (kv.0@, kv.1@))
}

/// Duplicate a header list.
fn dup_headers(v: &Vec<(String, String)>) -> (r: Vec<(String, String)>)
    ensures
        kvs(r@) == kvs(v@),
{
    let mut out: Vec<(String, String)> = Vec::new();
    let mut i: usize = 0;
    while i < v.len()
        invariant
            i <= v@.len(),
            out@.len() == i as int,
            forall|j: int| 0 <= j < i ==> kvs(out@)[j] == kvs(v@)[j],
        decreases v@.len() - i,
    {
        out.push((v[i].0.clone(), v[i].1.clone()));
        i = i + 1;
    }
    proof {
        assert(kvs(out@) =~= kvs(v@));
    }
    out
}

/// The JSON text of a row's mutation body.
pub open spec fn body_text_of(row: Row, times: Seq<Option<Seq<char>>>) -> Seq<char> {
    crate::json::text_of(
        JsonV::Obj(
            crate::cells::body_fields(
                crate::cells::col_names(row.cols@),
                crate::cells::cell_views(row.cells@),
                times,
            ),
        ),
    )
}

impl FdwState {
    /// Plan the request that inserts a row: POST to the endpoint, the row as
    /// JSON body.  `times` carries the host's RFC 3339 renderings for time
    /// cells, as `row_to_body` takes them.
    pub fn insert_request(&self, row: &Row, times: &Vec<Option<String>>) -> (r: RequestPlan)
        requires
            row.wf(),
            times@.len() == row.cells@.len(),
        ensures
            r.method is Post,
            r.url@ == self.base_url@ + self.endpoint@,
            kvs(r.headers@) == kvs(self.headers@),
            r.body@ == body_text_of(*row, crate::cells::time_views(times@)),
    {
        let mut url = self.base_url.clone();
        url.append(self.endpoint.as_str());
        let body_val = crate::cells::row_to_body(row, times);
        RequestPlan {
            method: HttpMethod::Post,
            url,
            headers: dup_headers(&self.headers),
            body: body_val.to_text(),
        }
    }

    /// Plan the request that updates a row: PATCH to the row's resource
    /// path.  A row id that is not a string or 32/64-bit integer is rejected
    /// before any request is planned.
    pub fn update_request(&self, rowid: &Cell, row: &Row, times: &Vec<Option<String>>) -> (r:
        Result<RequestPlan, AdapterError>)
        requires
            row.wf(),
            times@.len() == row.cells@.len(),
        ensures
            match r {
                Ok(p) => {
                    &&& crate::cells::id_text(rowid@) is Some
                    &&& p.method is Patch
                    &&& p.url@ == self.base_url@ + self.endpoint@ + seq!['/']
                        + crate::cells::id_text(rowid@)->0
                    &&& kvs(p.headers@) == kvs(self.headers@)
                    &&& p.body@ == body_text_of(*row, crate::cells::time_views(times@))
                },
                Err(e) => e is BadRowId && crate::cells::id_text(rowid@) is None,
            },
    {
        let id = match crate::cells::cell_id_string(rowid) {
            Some(s) => s,
            None => {
                return Err(AdapterError::BadRowId);
            },
        };
        let mut url = self.base_url.clone();
        url.append(self.endpoint.as_str());
        url.push('/');
        url.append(id.as_str());
        proof {
            assert(url@ =~= self.base_url@ + self.endpoint@ + seq!['/'] + id@);
        }
        let body_val = crate::cells::row_to_body(row, times);
        Ok(RequestPlan {
            method: HttpMethod::Patch,
            url,
            headers: dup_headers(&self.headers),
            body: body_val.to_text(),
        })
    }

    /// Plan the request that deletes a row: DELETE on the row's resource
    /// path, with an empty body.  The row id is checked as for updates.
    pub fn delete_request(&self, rowid: &Cell) -> (r: Result<RequestPlan, AdapterError>)
        ensures
            match r {
                Ok(p) => {
                    &&& crate::cells::id_text(rowid@) is Some
                    &&& p.method is Delete
                    &&& p.url@ == self.base_url@ + self.endpoint@ + seq!['/']
                        + crate::cells::id_text(rowid@)->0
                    &&& kvs(p.headers@) == kvs(self.headers@)
                    &&& p.body@ == Seq::<char>::empty()
                },
                Err(e) => e is BadRowId && crate::cells::id_text(rowid@) is None,
            },
    {
        let id = match crate::cells::cell_id_string(rowid) {
            Some(s) => s,
            None => {
                return Err(AdapterError::BadRowId);
            },
        };
        let mut url = self.base_url.clone();
        url.append(self.endpoint.as_str());
        url.push('/');
        url.append(id.as_str());
        proof {
            assert(url@ =~= self.base_url@ + self.endpoint@ + seq!['/'] + id@);
        }
        Ok(RequestPlan {
            method: HttpMethod::Delete,
            url,
            headers: dup_headers(&self.headers),
            body: String::new(),
        })
    }
}

/// An option value, or a default.
pub open spec fn opt_get_or(
    o: Seq<(Seq<char>, Seq<char>)>,
    key: Seq<char>,
    dflt: Seq<char>,
) -> Seq<char> {
    match opt_get(o, key) {
        Some(v) => v,
        None => dflt,
    }
}

/// The API key the server options select: a literal `api_key` option, or
/// the vault value the host fetched for `api_key_id`.
pub open spec fn api_key_of(
    o: Seq<(Seq<char>, Seq<char>)>,
    vault: Option<Seq<char>>,
) -> Option<Seq<char>> {
    match opt_get(o, "api_key"@) {
        Some(v) => Some(v),
        None => match opt_get(o, "api_key_id"@) {
            Some(_) => vault,
            None => None,
        },
    }
}

/// The bearer token the server options select, by literal or by vault
/// reference.
pub open spec fn bearer_of(
    o: Seq<(Seq<char>, Seq<char>)>,
    vault: Option<Seq<char>>,
) -> Option<Seq<char>> {
    match opt_get(o, "bearer_token"@) {
        Some(v) => Some(v),
        None => match opt_get(o, "bearer_token_id"@) {
            Some(_) => vault,
            None => None,
        },
    }
}

/// The API-key header: the configured header name (default
/// `Authorization`), lower-cased; the value takes the configured prefix, or
/// `Bearer` when the default header is used bare.
pub open spec fn auth_header_of(o: Seq<(Seq<char>, Seq<char>)>, key: Seq<char>) -> (
    Seq<char>,
    Seq<char>,
) {
    let name = opt_get_or(o, "api_key_header"@, "Authorization"@);
    let value = match opt_get(o, "api_key_prefix"@) {
        Some(p) => p + seq![' '] + key,
        None => if name == "Authorization"@ {
            "Bearer "@ + key
        } else {
            key
        },
    };
    (ascii_fold(name), value)
}

/// The fixed headers every request carries.
pub open spec fn base_headers() -> Seq<(Seq<char>, Seq<char>)> {
    seq![
        ("user-agent"@, "Wrappers OpenAPI FDW"@),
        ("content-type"@, "application/json"@),
        ("accept"@, "application/json"@),
    ]
}

/// The headers the server options produce: the fixed ones, then the
/// API-key header when a key is configured, then a bearer authorization
/// when a token is configured.
pub open spec fn server_headers(
    o: Seq<(Seq<char>, Seq<char>)>,
    vault_key: Option<Seq<char>>,
    vault_bearer: Option<Seq<char>>,
) -> Seq<(Seq<char>, Seq<char>)> {
    let with_key = match api_key_of(o, vault_key) {
        Some(k) => base_headers().push(auth_header_of(o, k)),
        None => base_headers(),
    };
    match bearer_of(o, vault_bearer) {
        Some(t) => with_key.push(("authorization"@, "Bearer "@ + t)),
        None => with_key,
    }
}

impl FdwState {
    /// Configure the session from the server options.  The host passes the
    /// vault values it fetched for `api_key_id` and `bearer_token_id`, or
    /// `None`.  The base URL loses its trailing slashes; pagination takes
    /// its documented defaults (`page_size` 100, `page_size_param`
    /// `limit`, `cursor_param` `after`).
    pub fn init_server(
        &mut self,
        opts: &OptionBag,
        vault_api_key: Option<String>,
        vault_bearer: Option<String>,
    )
        ensures
            final(self).base_url@ == strutil::trim_trailing(
                opt_get_or(opts_view(*opts), "base_url"@, ""@),
                '/',
            ),
            kvs(final(self).headers@) == server_headers(
                opts_view(*opts),
                os(vault_api_key),
                os(vault_bearer),
            ),
            final(self).page_size == spec_page_size_or(opts_view(*opts), 100),
            final(self).page_size_param@ == opt_get_or(
                opts_view(*opts),
                "page_size_param"@,
                "limit"@,
            ),
            final(self).cursor_param@ == opt_get_or(opts_view(*opts), "cursor_param"@, "after"@),
            final(self).endpoint == old(self).endpoint,
            final(self).response_path == old(self).response_path,
            final(self).object_path == old(self).object_path,
            final(self).rowid_col == old(self).rowid_col,
            final(self).cursor_path == old(self).cursor_path,
            final(self).next_cursor == old(self).next_cursor,
            final(self).next_url == old(self).next_url,
            final(self).src_rows == old(self).src_rows,
            final(self).src_idx == old(self).src_idx,
    {
        let ghost o = opts_view(*opts);
        let base = opts.require_or("base_url", "");
        self.base_url = strutil::trim_trailing_exec(base.as_str(), '/');

        let mut headers: Vec<(String, String)> = Vec::new();
        headers.push((String::from_str("user-agent"), String::from_str("Wrappers OpenAPI FDW")));
        headers.push((String::from_str("content-type"), String::from_str("application/json")));
        headers.push((String::from_str("accept"), String::from_str("application/json")));
        proof {
            assert(kvs(headers@) =~= base_headers());
        }

        let api_key: Option<String> = match opts.get("api_key") {
            Some(k) => Some(k),
            None => match opts.get("api_key_id") {
                Some(_) => vault_api_key,
                None => None,
            },
        };
        match api_key {
            Some(key) => {
                let name = opts.require_or("api_key_header", "Authorization");
                let value: String = match opts.get("api_key_prefix") {
                    Some(p) => {
                        let mut v = p;
                        v.push(' ');
                        v.append(key.as_str());
                        proof {
                            assert(v@ =~= opt_get(o, "api_key_prefix"@)->0 + seq![' '] + key@);
                        }
                        v
                    },
                    None => {
                        if strutil::str_eq(name.as_str(), "Authorization") {
                            let mut v = String::from_str("Bearer ");
                            v.append(key.as_str());
                            v
                        } else {
                            key
                        }
                    },
                };
                let folded = strutil::fold_string(name.as_str());
                let ghost pre = kvs(headers@);
                let entry = (folded, value);
                let ghost gentry = entry;
                headers.push(entry);
                proof {
                    assert((gentry.0@, gentry.1@) == auth_header_of(o, api_key_of(
                        o,
                        os(vault_api_key),
                    )->0));
                    assert(kvs(headers@) =~= pre.push((gentry.0@, gentry.1@)));
                }
            },
            None => {},
        }

        let bearer: Option<String> = match opts.get("bearer_token") {
            Some(t) => Some(t),
            None => match opts.get("bearer_token_id") {
                Some(_) => vault_bearer,
                None => None,
            },
        };
        match bearer {
            Some(token) => {
                let mut v = String::from_str("Bearer ");
                v.append(token.as_str());
                let ghost pre = kvs(headers@);
                let entry = (String::from_str("authorization"), v);
                let ghost gentry = entry;
                headers.push(entry);
                proof {
                    assert(kvs(headers@) =~= pre.push((gentry.0@, gentry.1@)));
                }
            },
            None => {},
        }
        self.headers = headers;

        self.page_size = match opts.get("page_size") {
            Some(sz) => match strutil::parse_dec_usize(sz.as_str()) {
                Some(v) => v,
                None => 100,
            },
            None => 100,
        };
        self.page_size_param = opts.require_or("page_size_param", "limit");
        self.cursor_param = opts.require_or("cursor_param", "after");
    }

    /// Take the default base URL out of a parsed document when none was
    /// configured: the first server's URL, without trailing slashes.
    pub fn adopt_base_url(&mut self, document: &crate::openapi::OpenApiSpec)
        ensures
            old(self).base_url@.len() > 0 ==> *final(self) == *old(self),
            old(self).base_url@.len() == 0 && document.servers@.len() == 0 ==> *final(self)
                == *old(self),
            old(self).base_url@.len() == 0 && document.servers@.len() > 0 ==> final(self).base_url@
                == strutil::trim_trailing(document.servers@[0].url@, '/'),
            same_config((FdwState { base_url: old(self).base_url, ..*final(self) }), *old(self)),
            final(self).next_cursor == old(self).next_cursor,
            final(self).next_url == old(self).next_url,
            final(self).src_rows == old(self).src_rows,
            final(self).src_idx == old(self).src_idx,
    {
        if self.base_url.as_str().is_empty() {
            match document.base_url() {
                Some(u) => {
                    self.base_url = strutil::trim_trailing_exec(u, '/');
                },
                None => {},
            }
        }
    }
}

} // verus!
