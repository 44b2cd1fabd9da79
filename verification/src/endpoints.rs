//! Endpoint extraction: the queryable endpoints of a document, each with
//! its response schema, supported mutation verbs and merged parameters.
//!
//! A path qualifies when it has a GET operation and no `{parameter}`
//! segment; single-resource paths are reached only through identifier
//! pushdown.  The endpoints come out ordered by path.

use vstd::prelude::*;
use vstd::string::StrSliceExecFns;
use crate::openapi::{
    OpenApiSpec, Operation, PathItem, Parameter, Response, MediaType, Schema, SchemaV, sv, ostr,
};
use crate::strutil;
use crate::strutil::{lex_le, split_on, dashes_to_underscores};

verus! {

broadcast use vstd::std_specs::vec::group_vec_axioms;

/// The mathematical view of a parameter.
#[verifier::ext_equal]
pub struct ParamV {
    pub name: Seq<char>,
    pub location: Seq<char>,
    pub required: bool,
    pub schema: Option<SchemaV>,
    pub description: Option<Seq<char>>,
}

/// The view of a parameter.
pub open spec fn pv(p: Parameter) -> ParamV {
    ParamV {
        name: p.name@,
        location: p.location@,
        required: p.required,
        schema: match p.schema {
            Some(s) => Some(sv(s)),
            None => None,
        },
        description: ostr(p.description),
    }
}

pub open spec fn pv_list(l: Seq<Parameter>) -> Seq<ParamV>
    decreases l,
{
    if l.len() == 0 {
        Seq::empty()
    } else {
        seq![pv(l[0])] + pv_list(l.drop_first())
    }
}

pub proof fn lemma_pv_list_len(l: Seq<Parameter>)
    ensures
        pv_list(l).len() == l.len(),
    decreases l,
{
    if l.len() > 0 {
        lemma_pv_list_len(l.drop_first());
    }
}

pub proof fn lemma_pv_list_index(l: Seq<Parameter>, i: int)
    requires
        0 <= i < l.len(),
    ensures
        pv_list(l).len() == l.len(),
        pv_list(l)[i] == pv(l[i]),
    decreases l,
{
    if i > 0 {
        lemma_pv_list_index(l.drop_first(), i - 1);
    } else {
        lemma_pv_list_len(l);
    }
}

pub proof fn lemma_pv_list_push(l: Seq<Parameter>, x: Parameter)
    ensures
        pv_list(l.push(x)) == pv_list(l).push(pv(x)),
    decreases l,
{
    lemma_pv_list_len(l);
    lemma_pv_list_len(l.push(x));
    assert forall|i: int| 0 <= i < l.len() + 1 implies pv_list(l.push(x))[i] == pv_list(l).push(
        pv(x),
    )[i] by {
        lemma_pv_list_index(l.push(x), i);
        if i < l.len() {
            lemma_pv_list_index(l, i);
            assert(l.push(x)[i] == l[i]);
        }
    }
    assert(pv_list(l.push(x)) =~= pv_list(l).push(pv(x)));
}

impl Clone for Parameter {
    /// Clone with an identical mathematical view.
    fn clone(&self) -> (r: Self)
        ensures
            pv(r) == pv(*self),
    {
        Parameter {
            name: self.name.clone(),
            location: self.location.clone(),
            required: self.required,
            schema: match &self.schema {
                Some(s) => Some(s.dup()),
                None => None,
            },
            description: match &self.description {
                Some(s) => Some(s.clone()),
                None => None,
            },
        }
    }
}

/// Whether the list holds a parameter under the same name and location.
pub open spec fn param_key_in(l: Seq<ParamV>, name: Seq<char>, location: Seq<char>) -> bool
    decreases l.len(),
{
    if l.len() == 0 {
        false
    } else if l[0].name == name && l[0].location == location {
        true
    } else {
        param_key_in(l.drop_first(), name, location)
    }
}

pub proof fn lemma_param_key_skip(l: Seq<ParamV>, name: Seq<char>, location: Seq<char>, i: int)
    requires
        0 <= i <= l.len(),
        forall|j: int| 0 <= j < i ==> !(l[j].name == name && l[j].location == location),
    ensures
        param_key_in(l, name, location) == param_key_in(l.skip(i), name, location),
    decreases i,
{
    if i > 0 {
        assert(l.drop_first().skip(i - 1) =~= l.skip(i));
        lemma_param_key_skip(l.drop_first(), name, location, i - 1);
    } else {
        assert(l.skip(0) =~= l);
    }
}

/// The merge of path-level and operation-level parameters: all path-level
/// parameters, then each operation-level parameter whose `(name, location)`
/// pair is not already present.
pub open spec fn merged_params(a: Seq<ParamV>, b: Seq<ParamV>) -> Seq<ParamV>
    decreases b.len(),
{
    if b.len() == 0 {
        a
    } else if param_key_in(a, b[0].name, b[0].location) {
        merged_params(a, b.drop_first())
    } else {
        merged_params(a.push(b[0]), b.drop_first())
    }
}

/// Whether the parameter list holds the given name/location key.
fn has_param_key(params: &Vec<Parameter>, name: &str, location: &str) -> (r: bool)
    ensures
        r == param_key_in(pv_list(params@), name@, location@),
{
    proof {
        lemma_pv_list_len(params@);
    }
    let mut i: usize = 0;
    while i < params.len()
        invariant
            pv_list(params@).len() == params@.len(),
            i <= params@.len(),
            forall|j: int|
                0 <= j < i ==> !(pv_list(params@)[j].name == name@ && pv_list(params@)[j].location
                    == location@),
        decreases params@.len() - i,
    {
        proof {
            lemma_pv_list_index(params@, i as int);
        }
        if strutil::str_eq(params[i].name.as_str(), name) && strutil::str_eq(
            params[i].location.as_str(),
            location,
        ) {
            proof {
                lemma_param_key_skip(pv_list(params@), name@, location@, i as int);
                assert(pv_list(params@).skip(i as int)[0] == pv_list(params@)[i as int]);
                assert(pv_list(params@).skip(i as int).len() > 0);
            }
            return true;
        }
        i = i + 1;
    }
    proof {
        lemma_param_key_skip(pv_list(params@), name@, location@, params@.len() as int);
        assert(pv_list(params@).skip(params@.len() as int).len() == 0);
    }
    false
}

/// Duplicate a parameter list.
fn dup_params(l: &Vec<Parameter>) -> (r: Vec<Parameter>)
    ensures
        pv_list(r@) == pv_list(l@),
{
    proof {
        lemma_pv_list_len(l@);
    }
    let mut out: Vec<Parameter> = Vec::new();
    let mut i: usize = 0;
    while i < l.len()
        invariant
            pv_list(l@).len() == l@.len(),
            i <= l@.len(),
            pv_list(out@).len() == i as int,
            forall|j: int| 0 <= j < i ==> pv_list(out@)[j] == pv_list(l@)[j],
        decreases l@.len() - i,
    {
        let e = l[i].clone();
        proof {
            lemma_pv_list_push(out@, e);
            lemma_pv_list_index(l@, i as int);
        }
        out.push(e);
        i = i + 1;
    }
    proof {
        assert(pv_list(out@) =~= pv_list(l@));
    }
    out
}

/// First-match lookup among a response map's entries.
pub open spec fn resp_lookup(rs: Seq<(String, Response)>, key: Seq<char>) -> Option<Response>
    decreases rs.len(),
{
    if rs.len() == 0 {
        None
    } else if rs[0].0@ == key {
        Some(rs[0].1)
    } else {
        resp_lookup(rs.drop_first(), key)
    }
}

pub proof fn lemma_resp_lookup_skip(rs: Seq<(String, Response)>, key: Seq<char>, i: int)
    requires
        0 <= i <= rs.len(),
        forall|j: int| 0 <= j < i ==> rs[j].0@ != key,
    ensures
        resp_lookup(rs, key) == resp_lookup(rs.skip(i), key),
    decreases i,
{
    if i > 0 {
        assert(rs.drop_first().skip(i - 1) =~= rs.skip(i));
        lemma_resp_lookup_skip(rs.drop_first(), key, i - 1);
    } else {
        assert(rs.skip(0) =~= rs);
    }
}

/// The response chosen for table generation: status `200`, else `201`,
/// else `default`.
pub open spec fn pick_response(rs: Seq<(String, Response)>) -> Option<Response> {
    match resp_lookup(rs, "200"@) {
        Some(r) => Some(r),
        None => match resp_lookup(rs, "201"@) {
            Some(r) => Some(r),
            None => resp_lookup(rs, "default"@),
        },
    }
}

/// The media type chosen inside a response: `application/json` when
/// present, else the first content entry.
pub open spec fn pick_media(content: Seq<(String, MediaType)>) -> Option<MediaType>
    decreases content.len(),
{
    if content.len() == 0 {
        None
    } else if content[0].0@ == "application/json"@ {
        Some(content[0].1)
    } else {
        match pick_media_json(content.drop_first()) {
            Some(m) => Some(m),
            None => Some(content[0].1),
        }
    }
}

/// Lookup of exactly the `application/json` entry.
pub open spec fn pick_media_json(content: Seq<(String, MediaType)>) -> Option<MediaType>
    decreases content.len(),
{
    if content.len() == 0 {
        None
    } else if content[0].0@ == "application/json"@ {
        Some(content[0].1)
    } else {
        pick_media_json(content.drop_first())
    }
}

pub proof fn lemma_pick_media_json_skip(content: Seq<(String, MediaType)>, i: int)
    requires
        0 <= i <= content.len(),
        forall|j: int| 0 <= j < i ==> content[j].0@ != "application/json"@,
    ensures
        pick_media_json(content) == pick_media_json(content.skip(i)),
    decreases i,
{
    if i > 0 {
        assert(content.drop_first().skip(i - 1) =~= content.skip(i));
        lemma_pick_media_json_skip(content.drop_first(), i - 1);
    } else {
        assert(content.skip(0) =~= content);
    }
}

/// The schema of the chosen response and media type, when any.
pub open spec fn response_schema_of(op: Operation) -> Option<SchemaV> {
    match pick_response(op.responses@) {
        None => None,
        Some(resp) => match pick_media(resp.content@) {
            None => None,
            Some(m) => match m.schema {
                Some(s) => Some(sv(s)),
                None => None,
            },
        },
    }
}

/// One queryable endpoint: its path, descriptive metadata, the schema of a
/// successful response, the mutation verbs the path supports, and the
/// merged parameter list.
pub struct EndpointInfo {
    pub path: String,
    pub operation_id: Option<String>,
    pub summary: Option<String>,
    pub response_schema: Option<Schema>,
    pub supports_post: bool,
    pub supports_patch: bool,
    pub supports_delete: bool,
    pub parameters: Vec<Parameter>,
}

/// The last non-empty `/`-delimited segment of a path.
pub open spec fn last_nonempty(segs: Seq<Seq<char>>) -> Seq<char>
    decreases segs.len(),
{
    if segs.len() == 0 {
        Seq::empty()
    } else if segs.last().len() > 0 {
        segs.last()
    } else {
        last_nonempty(segs.drop_last())
    }
}

/// The table name a path derives: its last non-empty segment, with every
/// `-` replaced by `_`.
pub open spec fn table_name_of(path: Seq<char>) -> Seq<char> {
    dashes_to_underscores(last_nonempty(split_on(path, '/')))
}

impl EndpointInfo {
    /// The table name this endpoint's path derives, per `table_name_of`: a
    /// pure function of the path.
    pub fn table_name(&self) -> (r: String)
        ensures
            r@ == table_name_of(self.path@),
    {
        let segs = strutil::split_str(self.path.as_str(), '/');
        let ghost gsegs = split_on(self.path@, '/');
        let mut e: usize = segs.len();
        proof {
            assert(gsegs.take(gsegs.len() as int) =~= gsegs);
        }
        while e > 0 && segs[e - 1].as_str().unicode_len() == 0
            invariant
                segs@.len() == gsegs.len(),
                forall|i: int| 0 <= i < gsegs.len() ==> segs@[i]@ == gsegs[i],
                e <= gsegs.len(),
                last_nonempty(gsegs) == last_nonempty(gsegs.take(e as int)),
            decreases e,
        {
            proof {
                assert(gsegs.take(e as int).last() == gsegs[e as int - 1]);
                assert(gsegs.take(e as int).drop_last() =~= gsegs.take(e as int - 1));
            }
            e = e - 1;
        }
        if e == 0 {
            proof {
                assert(last_nonempty(gsegs.take(0)) =~= Seq::<char>::empty());
                assert(dashes_to_underscores(table_name_of(self.path@)).len()
                    == table_name_of(self.path@).len());
                assert(table_name_of(self.path@) =~= Seq::<char>::empty());
            }
            return String::new();
        }
        proof {
            assert(gsegs.take(e as int).last() == gsegs[e as int - 1]);
            assert(segs@[e as int - 1]@ == gsegs[e as int - 1]);
            assert(last_nonempty(gsegs.take(e as int)) == gsegs[e as int - 1]);
        }
        strutil::dash_to_underscore(segs[e - 1].as_str())
    }
}

/// Whether a path is queryable: it has a GET operation and no `{parameter}`
/// segment.
pub open spec fn qualifies(p: (String, PathItem)) -> bool {
    !p.0@.contains('{') && p.1.get is Some
}

/// How many of the paths are queryable.
pub open spec fn count_qualifying(ps: Seq<(String, PathItem)>) -> nat
    decreases ps.len(),
{
    if ps.len() == 0 {
        0
    } else {
        count_qualifying(ps.drop_last()) + (if qualifies(ps.last()) {
            1nat
        } else {
            0nat
        })
    }
}

/// Whether `e` describes one of the first `bound` paths, itself queryable.
pub open spec fn describes_one(
    paths: Seq<(String, PathItem)>,
    bound: int,
    e: EndpointInfo,
) -> bool {
    exists|j: int|
        0 <= j < bound && qualifies(#[trigger] paths[j]) && einfo_matches(
            e,
            paths[j].0,
            paths[j].1,
        )
}

/// Whether some record carries the path `p`.
pub open spec fn appears_in(out: Seq<EndpointInfo>, p: String) -> bool {
    exists|i: int| 0 <= i < out.len() && (#[trigger] out[i]).path@ == p@
}

/// Every record of `out` describes one queryable path among the first
/// `bound` paths.
pub open spec fn endpoints_sound(
    paths: Seq<(String, PathItem)>,
    bound: int,
    out: Seq<EndpointInfo>,
) -> bool {
    forall|i: int| 0 <= i < out.len() ==> describes_one(paths, bound, #[trigger] out[i])
}

/// Every queryable path among the first `bound` paths appears in `out`.
pub open spec fn endpoints_complete(
    paths: Seq<(String, PathItem)>,
    bound: int,
    out: Seq<EndpointInfo>,
) -> bool {
    forall|j: int|
        0 <= j < bound && qualifies(#[trigger] paths[j]) ==> appears_in(out, paths[j].0)
}

/// Whether an endpoint record describes a queryable path: every field is
/// determined by the path item and its GET operation.
#[verifier::opaque]
pub open spec fn einfo_matches(e: EndpointInfo, path: String, item: PathItem) -> bool {
    let op = item.get->0;
    &&& item.get is Some
    &&& e.path@ == path@
    &&& ostr(e.operation_id) == ostr(op.operation_id)
    &&& ostr(e.summary) == (match op.summary {
        Some(s) => Some(s@),
        None => ostr(op.description),
    })
    &&& (match e.response_schema {
        Some(s) => response_schema_of(op) == Some(sv(s)),
        None => response_schema_of(op) is None,
    })
    &&& e.supports_post == (item.post is Some)
    &&& e.supports_patch == (item.patch is Some)
    &&& e.supports_delete == (item.delete is Some)
    &&& pv_list(e.parameters@) == merged_params(pv_list(item.parameters@), pv_list(op.parameters@))
}

/// A record that describes one of the first `bound` paths also describes
/// one of the first `bound + 1`.
proof fn lemma_describes_widen(paths: Seq<(String, PathItem)>, bound: int, e: EndpointInfo)
    requires
        describes_one(paths, bound, e),
    ensures
        describes_one(paths, bound + 1, e),
{
    let w = choose|j: int|
        0 <= j < bound && qualifies(#[trigger] paths[j]) && einfo_matches(
            e,
            paths[j].0,
            paths[j].1,
        );
    assert(0 <= w < bound + 1 && qualifies(paths[w]) && einfo_matches(e, paths[w].0, paths[w].1));
}

/// Extending the scanned range by one non-queryable path changes nothing.
proof fn lemma_endpoints_skip(paths: Seq<(String, PathItem)>, j: int, out: Seq<EndpointInfo>)
    requires
        0 <= j < paths.len(),
        !qualifies(paths[j]),
        endpoints_sound(paths, j, out),
        endpoints_complete(paths, j, out),
    ensures
        endpoints_sound(paths, j + 1, out),
        endpoints_complete(paths, j + 1, out),
{
    assert forall|i: int| 0 <= i < out.len() implies describes_one(paths, j + 1, #[trigger] out[i]) by {
        lemma_describes_widen(paths, j, out[i]);
    }
}

/// Inserting the record of the `j`-th path, itself queryable, extends both
/// correspondences by one path, whatever position the record took.
proof fn lemma_endpoints_extend(
    paths: Seq<(String, PathItem)>,
    j: int,
    pre: Seq<EndpointInfo>,
    post: Seq<EndpointInfo>,
    e: EndpointInfo,
)
    requires
        0 <= j < paths.len(),
        qualifies(paths[j]),
        einfo_matches(e, paths[j].0, paths[j].1),
        endpoints_sound(paths, j, pre),
        endpoints_complete(paths, j, pre),
        forall|i: int|
            0 <= i < post.len() ==> ((#[trigger] post[i]) == e || exists|jj: int|
                0 <= jj < pre.len() && post[i] == pre[jj]),
        forall|jj: int|
            0 <= jj < pre.len() ==> exists|i: int|
                0 <= i < post.len() && post[i] == #[trigger] pre[jj],
        exists|i: int| 0 <= i < post.len() && (#[trigger] post[i]) == e,
    ensures
        endpoints_sound(paths, j + 1, post),
        endpoints_complete(paths, j + 1, post),
{
    assert forall|i: int| 0 <= i < post.len() implies describes_one(
        paths,
        j + 1,
        #[trigger] post[i],
    ) by {
        if post[i] == e {
            assert(0 <= j < j + 1 && qualifies(paths[j]) && einfo_matches(
                post[i],
                paths[j].0,
                paths[j].1,
            ));
        } else {
            let jp = choose|jp: int| 0 <= jp < pre.len() && post[i] == pre[jp];
            assert(describes_one(paths, j, pre[jp]));
            lemma_describes_widen(paths, j, pre[jp]);
        }
    }
    assert forall|j2: int| 0 <= j2 < j + 1 && qualifies(#[trigger] paths[j2]) implies appears_in(
        post,
        paths[j2].0,
    ) by {
        if j2 == j {
            let wi = choose|wi: int| 0 <= wi < post.len() && (#[trigger] post[wi]) == e;
            assert(post[wi].path@ == paths[j].0@) by {
                reveal(einfo_matches);
            }
        } else {
            assert(appears_in(pre, paths[j2].0));
            let oi = choose|oi: int|
                0 <= oi < pre.len() && (#[trigger] pre[oi]).path@ == paths[j2].0@;
            let ni = choose|ni: int| 0 <= ni < post.len() && post[ni] == #[trigger] pre[oi];
            assert(post[ni].path@ == paths[j2].0@);
        }
    }
}

impl OpenApiSpec {
    /// The document's paths carry unique keys, as a mapping does.
    pub open spec fn paths_wf(&self) -> bool {
        forall|i: int, j: int|
            0 <= i < j < self.paths@.len() ==> (#[trigger] self.paths@[i]).0@ != (
            #[trigger] self.paths@[j]).0@
    }

    /// Merge path-level and operation-level parameters, keyed by name and
    /// location: operation-level parameters extend but never replace.
    pub fn merge_parameters(path_params: &Vec<Parameter>, op_params: &Vec<Parameter>) -> (r: Vec<
        Parameter,
    >)
        ensures
            pv_list(r@) == merged_params(pv_list(path_params@), pv_list(op_params@)),
    {
        let mut params = dup_params(path_params);
        let ghost a0 = pv_list(path_params@);
        let ghost b = pv_list(op_params@);
        proof {
            lemma_pv_list_len(op_params@);
            assert(b.skip(0) =~= b);
        }
        let mut i: usize = 0;
        while i < op_params.len()
            invariant
                b == pv_list(op_params@),
                b.len() == op_params@.len(),
                i <= op_params@.len(),
                merged_params(a0, b) == merged_params(pv_list(params@), b.skip(i as int)),
            decreases op_params@.len() - i,
        {
            proof {
                lemma_pv_list_index(op_params@, i as int);
                assert(b.skip(i as int)[0] == b[i as int]);
                assert(b.skip(i as int).drop_first() =~= b.skip(i as int + 1));
            }
            let p = &op_params[i];
            if !has_param_key(&params, p.name.as_str(), p.location.as_str()) {
                let e = p.clone();
                proof {
                    lemma_pv_list_push(params@, e);
                }
                params.push(e);
            }
            i = i + 1;
        }
        proof {
            assert(b.skip(op_params@.len() as int).len() == 0);
        }
        params
    }

    /// The schema of an operation's successful response: status `200`,
    /// `201` or `default`, in that order; within it the `application/json`
    /// content, else the first content entry.
    pub fn get_response_schema(&self, op: &Operation) -> (r: Option<Schema>)
        ensures
            match r {
                Some(s) => response_schema_of(*op) == Some(sv(s)),
                None => response_schema_of(*op) is None,
            },
    {
        let resp = match find_response(&op.responses, "200") {
            Some(r) => r,
            None => match find_response(&op.responses, "201") {
                Some(r) => r,
                None => match find_response(&op.responses, "default") {
                    Some(r) => r,
                    None => {
                        return None;
                    },
                },
            },
        };
        let media = match find_media(&resp.content) {
            Some(m) => m,
            None => {
                return None;
            },
        };
        match &media.schema {
            Some(s) => Some(s.dup()),
            None => None,
        }
    }

    /// The queryable endpoints, ordered by path.  Every record describes
    /// one queryable path of the document, every queryable path appears,
    /// and there are exactly as many records as queryable paths.
    #[verifier::rlimit(100)]
    pub fn get_endpoints(&self) -> (r: Vec<EndpointInfo>)
        requires
            self.paths_wf(),
        ensures
            endpoints_sound(self.paths@, self.paths@.len() as int, r@),
            endpoints_complete(self.paths@, self.paths@.len() as int, r@),
            forall|i1: int, i2: int|
                0 <= i1 < i2 < r@.len() ==> lex_le(
                    (#[trigger] r@[i1]).path@,
                    (#[trigger] r@[i2]).path@,
                ),
            r@.len() == count_qualifying(self.paths@),
    {
        let mut out: Vec<EndpointInfo> = Vec::new();
        let mut j: usize = 0;
        proof {
            assert(self.paths@.take(0) =~= Seq::<(String, PathItem)>::empty());
            assert(endpoints_sound(self.paths@, 0, out@));
            assert(endpoints_complete(self.paths@, 0, out@));
        }
        while j < self.paths.len()
            invariant
                self.paths_wf(),
                j <= self.paths@.len(),
                endpoints_sound(self.paths@, j as int, out@),
                endpoints_complete(self.paths@, j as int, out@),
                forall|i1: int, i2: int|
                    0 <= i1 < i2 < out@.len() ==> lex_le(
                        (#[trigger] out@[i1]).path@,
                        (#[trigger] out@[i2]).path@,
                    ),
                out@.len() == count_qualifying(self.paths@.take(j as int)),
            decreases self.paths@.len() - j,
        {
            proof {
                assert(self.paths@.take(j as int + 1).drop_last() =~= self.paths@.take(j as int));
                assert(self.paths@.take(j as int + 1).last() == self.paths@[j as int]);
            }
            let path = &self.paths[j].0;
            let item = &self.paths[j].1;
            if !strutil::str_contains_char(path.as_str(), '{') {
                match &item.get {
                    Some(op) => {
                        let summary: Option<String> = match &op.summary {
                            Some(s) => Some(s.clone()),
                            None => match &op.description {
                                Some(d) => Some(d.clone()),
                                None => None,
                            },
                        };
                        let e = EndpointInfo {
                            path: path.clone(),
                            operation_id: match &op.operation_id {
                                Some(s) => Some(s.clone()),
                                None => None,
                            },
                            summary,
                            response_schema: self.get_response_schema(op),
                            supports_post: item.post.is_some(),
                            supports_patch: item.patch.is_some(),
                            supports_delete: item.delete.is_some(),
                            parameters: Self::merge_parameters(&item.parameters, &op.parameters),
                        };
                        let ghost ge = e;
                        let ghost pre = out@;
                        proof {
                            assert(qualifies(self.paths@[j as int]));
                            assert(einfo_matches(ge, self.paths@[j as int].0, self.paths@[
                            j as int].1)) by {
                                reveal(einfo_matches);
                            }
                        }
                        insert_sorted(&mut out, e);
                        proof {
                            lemma_endpoints_extend(self.paths@, j as int, pre, out@, ge);
                        }
                    },
                    None => {
                        proof {
                            lemma_endpoints_skip(self.paths@, j as int, out@);
                        }
                    },
                }
            } else {
                proof {
                    lemma_endpoints_skip(self.paths@, j as int, out@);
                }
            }
            j = j + 1;
        }
        proof {
            assert(self.paths@.take(self.paths@.len() as int) =~= self.paths@);
        }
        out
    }
}

/// Insert an endpoint before the first entry its path does not follow,
/// keeping the list ordered by path.
fn insert_sorted(out: &mut Vec<EndpointInfo>, e: EndpointInfo)
    requires
        forall|i1: int, i2: int|
            0 <= i1 < i2 < old(out)@.len() ==> lex_le(
                (#[trigger] old(out)@[i1]).path@,
                (#[trigger] old(out)@[i2]).path@,
            ),
    ensures
        final(out)@.len() == old(out)@.len() + 1,
        forall|i: int|
            0 <= i < final(out)@.len() ==> ((#[trigger] final(out)@[i]) == e || exists|j: int|
                0 <= j < old(out)@.len() && #[trigger] final(out)@[i] == old(out)@[j]),
        forall|j: int|
            0 <= j < old(out)@.len() ==> exists|i: int|
                0 <= i < final(out)@.len() && final(out)@[i] == #[trigger] old(out)@[j],
        exists|i: int| 0 <= i < final(out)@.len() && (#[trigger] final(out)@[i]) == e,
        forall|i1: int, i2: int|
            0 <= i1 < i2 < final(out)@.len() ==> lex_le(
                (#[trigger] final(out)@[i1]).path@,
                (#[trigger] final(out)@[i2]).path@,
            ),
{
    let mut k: usize = 0;
    while k < out.len() && !strutil::str_le(e.path.as_str(), out[k].path.as_str())
        invariant
            *out == *old(out),
            k <= out@.len(),
            forall|m: int| 0 <= m < k ==> !lex_le(e.path@, (#[trigger] out@[m]).path@),
        decreases out@.len() - k,
    {
        k = k + 1;
    }
    proof {
        assert forall|m: int| 0 <= m < k implies lex_le((#[trigger] out@[m]).path@, e.path@) by {
            strutil::lemma_lex_total(out@[m].path@, e.path@);
        }
        assert forall|m: int| k <= m < out@.len() implies lex_le(e.path@, (
        #[trigger] out@[m]).path@) by {
            if k < out@.len() && m > k {
                assert(lex_le(out@[k as int].path@, out@[m].path@));
                strutil::lemma_lex_trans(e.path@, out@[k as int].path@, out@[m].path@);
            }
        }
    }
    let ghost pre = out@;
    out.insert(k, e);
    proof {
        assert(final(out)@ == pre.insert(k as int, e));
        assert(final(out)@[k as int] == e);
        assert forall|j: int| 0 <= j < pre.len() implies exists|i: int|
            0 <= i < final(out)@.len() && final(out)@[i] == #[trigger] pre[j] by {
            if j < k {
                assert(final(out)@[j] == pre[j]);
            } else {
                assert(final(out)@[j + 1] == pre[j]);
            }
        }
    }
}

/// First-match lookup of a response by status key.
fn find_response<'a>(responses: &'a Vec<(String, Response)>, key: &str) -> (r: Option<
    &'a Response,
>)
    ensures
        match r {
            Some(resp) => resp_lookup(responses@, key@) == Some(*resp),
            None => resp_lookup(responses@, key@) is None,
        },
{
    let mut i: usize = 0;
    while i < responses.len()
        invariant
            i <= responses@.len(),
            forall|j: int| 0 <= j < i ==> (#[trigger] responses@[j]).0@ != key@,
        decreases responses@.len() - i,
    {
        if strutil::str_eq(responses[i].0.as_str(), key) {
            proof {
                lemma_resp_lookup_skip(responses@, key@, i as int);
                assert(responses@.skip(i as int)[0] == responses@[i as int]);
                assert(responses@.skip(i as int).len() > 0);
            }
            return Some(&responses[i].1);
        }
        i = i + 1;
    }
    proof {
        lemma_resp_lookup_skip(responses@, key@, responses@.len() as int);
        assert(responses@.skip(responses@.len() as int).len() == 0);
    }
    None
}

/// The chosen media type: `application/json` when present, else the first
/// entry.
fn find_media<'a>(content: &'a Vec<(String, MediaType)>) -> (r: Option<&'a MediaType>)
    ensures
        match r {
            Some(m) => pick_media(content@) == Some(*m),
            None => pick_media(content@) is None,
        },
{
    if content.len() == 0 {
        return None;
    }
    let mut i: usize = 0;
    while i < content.len()
        invariant
            content@.len() > 0,
            i <= content@.len(),
            forall|j: int| 0 <= j < i ==> (#[trigger] content@[j]).0@ != "application/json"@,
        decreases content@.len() - i,
    {
        if strutil::str_eq(content[i].0.as_str(), "application/json") {
            proof {
                lemma_pick_media_json_skip(content@, i as int);
                assert(content@.skip(i as int)[0] == content@[i as int]);
                assert(content@.skip(i as int).len() > 0);
                if i > 0 {
                    assert(content@.drop_first().skip(i as int - 1) =~= content@.skip(i as int));
                    lemma_pick_media_json_skip(content@.drop_first(), i as int - 1);
                }
            }
            return Some(&content[i].1);
        }
        i = i + 1;
    }
    proof {
        lemma_pick_media_json_skip(content@, content@.len() as int);
        assert(content@.skip(content@.len() as int).len() == 0);
        assert(content@.drop_first().skip(content@.len() as int - 1) =~= content@.skip(
            content@.len() as int,
        ));
        lemma_pick_media_json_skip(content@.drop_first(), content@.len() as int - 1);
    }
    Some(&content[0].1)
}

} // verus!
