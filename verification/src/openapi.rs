//! The OpenAPI document model.
//!
//! Mappings that the document format keys by name (paths, responses, content
//! types, component schemas) are held as key/value sequences whose keys are
//! unique, looked up by first match.  The mathematical view of a schema node
//! is `SchemaV`, over `Seq`, `Set` and `Seq<char>`; the `required` names form
//! a set, since their order carries no meaning.

use vstd::prelude::*;
use vstd::string::StringExecFns;

verus! {

broadcast use vstd::std_specs::vec::group_vec_axioms;

/// An OpenAPI 3.0+ document.
pub struct OpenApiSpec {
    pub openapi: String,
    pub info: Info,
    pub servers: Vec<Server>,
    pub paths: Vec<(String, PathItem)>,
    pub components: Option<Components>,
}

/// The document's title and version.
pub struct Info {
    pub title: String,
    pub version: String,
}

/// One candidate base URL.
pub struct Server {
    pub url: String,
    pub description: Option<String>,
}

/// The operations available on one path.
pub struct PathItem {
    pub get: Option<Operation>,
    pub post: Option<Operation>,
    pub put: Option<Operation>,
    pub patch: Option<Operation>,
    pub delete: Option<Operation>,
    pub parameters: Vec<Parameter>,
}

/// One method-level operation.
pub struct Operation {
    pub operation_id: Option<String>,
    pub summary: Option<String>,
    pub description: Option<String>,
    pub parameters: Vec<Parameter>,
    pub request_body: Option<RequestBody>,
    pub responses: Vec<(String, Response)>,
    pub tags: Vec<String>,
}

/// One request or path parameter.
pub struct Parameter {
    pub name: String,
    pub location: String,
    pub required: bool,
    pub schema: Option<Schema>,
    pub description: Option<String>,
}

/// A request body: content keyed by media type.
pub struct RequestBody {
    pub content: Vec<(String, MediaType)>,
    pub required: bool,
}

/// One response: content keyed by media type.
pub struct Response {
    pub description: Option<String>,
    pub content: Vec<(String, MediaType)>,
}

/// The schema of one media type.
pub struct MediaType {
    pub schema: Option<Schema>,
}

/// A recursive schema node: a plain node, a `$ref`, or a composite.
pub struct Schema {
    pub schema_type: Option<String>,
    pub format: Option<String>,
    pub properties: Vec<(String, Schema)>,
    pub items: Option<Box<Schema>>,
    pub reference: Option<String>,
    pub required: Vec<String>,
    pub nullable: bool,
    pub all_of: Vec<Schema>,
    pub one_of: Vec<Schema>,
    pub any_of: Vec<Schema>,
}

/// The document's reusable components.
pub struct Components {
    pub schemas: Vec<(String, Schema)>,
    pub security_schemes: Vec<(String, SecurityScheme)>,
}

/// One declared security scheme.
pub struct SecurityScheme {
    pub scheme_type: String,
    pub scheme: Option<String>,
    pub name: Option<String>,
    pub location: Option<String>,
    pub bearer_format: Option<String>,
}

/// The mathematical view of a schema node.  `items` holds zero or one
/// element; `required` is the set of required property names.
#[verifier::ext_equal]
pub struct SchemaV {
    pub schema_type: Option<Seq<char>>,
    pub format: Option<Seq<char>>,
    pub properties: Seq<(Seq<char>, SchemaV)>,
    pub items: Seq<SchemaV>,
    pub reference: Option<Seq<char>>,
    pub required: Set<Seq<char>>,
    pub nullable: bool,
    pub all_of: Seq<SchemaV>,
    pub one_of: Seq<SchemaV>,
    pub any_of: Seq<SchemaV>,
}

/// The view of an optional string.
pub open spec fn ostr(o: Option<String>) -> Option<Seq<char>> {
    match o {
        Some(s) => Some(s@),
        None => None,
    }
}

/// The set of names in a name list.
pub open spec fn name_set(l: Seq<String>) -> Set<Seq<char>> {
    l.map_values(|s: String| s@).to_set()
}

/// Appending one name inserts its view into the name set.
pub proof fn lemma_name_set_push(l: Seq<String>, x: String)
    ensures
        name_set(l.push(x)) == name_set(l).insert(x@),
{
    let m = l.map_values(|s: String| s@);
    let mp = l.push(x).map_values(|s: String| s@);
    assert(mp =~= m.push(x@));
    assert forall|y: Seq<char>| #[trigger] name_set(l.push(x)).contains(y) implies name_set(
        l,
    ).insert(x@).contains(y) by {
        let i = choose|i: int| 0 <= i < mp.len() && mp[i] == y;
        if i < m.len() {
            assert(m[i] == y);
        }
    }
    assert forall|y: Seq<char>| #[trigger] name_set(l).insert(x@).contains(y) implies name_set(
        l.push(x),
    ).contains(y) by {
        if y == x@ {
            assert(mp[m.len() as int] == y);
        } else {
            let i = choose|i: int| 0 <= i < m.len() && m[i] == y;
            assert(mp[i] == y);
        }
    }
    assert(name_set(l.push(x)) =~= name_set(l).insert(x@));
}

pub open spec fn sv_list(l: Seq<Schema>) -> Seq<SchemaV>
    decreases l,
{
    if l.len() == 0 {
        Seq::empty()
    } else {
        seq![sv(l[0])] + sv_list(l.drop_first())
    }
}

pub open spec fn sv_props(l: Seq<(String, Schema)>) -> Seq<(Seq<char>, SchemaV)>
    decreases l,
{
    if l.len() == 0 {
        Seq::empty()
    } else {
        seq![(l[0].0@, sv(l[0].1))] + sv_props(l.drop_first())
    }
}

/// The view of a schema node.
pub open spec fn sv(s: Schema) -> SchemaV
    decreases s,
{
    SchemaV {
        schema_type: ostr(s.schema_type),
        format: ostr(s.format),
        properties: sv_props(s.properties@),
        items: match s.items {
            Some(b) => seq![sv(*b)],
            None => Seq::empty(),
        },
        reference: ostr(s.reference),
        required: name_set(s.required@),
        nullable: s.nullable,
        all_of: sv_list(s.all_of@),
        one_of: sv_list(s.one_of@),
        any_of: sv_list(s.any_of@),
    }
}

impl View for Schema {
    type V = SchemaV;

    open spec fn view(&self) -> SchemaV {
        sv(*self)
    }
}

pub proof fn lemma_sv_list_len(l: Seq<Schema>)
    ensures
        sv_list(l).len() == l.len(),
    decreases l,
{
    if l.len() > 0 {
        lemma_sv_list_len(l.drop_first());
    }
}

pub proof fn lemma_sv_list_index(l: Seq<Schema>, i: int)
    requires
        0 <= i < l.len(),
    ensures
        sv_list(l).len() == l.len(),
        sv_list(l)[i] == sv(l[i]),
    decreases l,
{
    if i > 0 {
        lemma_sv_list_index(l.drop_first(), i - 1);
    } else {
        lemma_sv_list_len(l);
    }
}

pub proof fn lemma_sv_list_push(l: Seq<Schema>, x: Schema)
    ensures
        sv_list(l.push(x)) == sv_list(l).push(sv(x)),
    decreases l,
{
    lemma_sv_list_len(l);
    lemma_sv_list_len(l.push(x));
    assert forall|i: int| 0 <= i < l.len() + 1 implies sv_list(l.push(x))[i] == sv_list(l).push(
        sv(x),
    )[i] by {
        lemma_sv_list_index(l.push(x), i);
        if i < l.len() {
            lemma_sv_list_index(l, i);
            assert(l.push(x)[i] == l[i]);
        }
    }
    assert(sv_list(l.push(x)) =~= sv_list(l).push(sv(x)));
}

pub proof fn lemma_sv_props_len(l: Seq<(String, Schema)>)
    ensures
        sv_props(l).len() == l.len(),
    decreases l,
{
    if l.len() > 0 {
        lemma_sv_props_len(l.drop_first());
    }
}

pub proof fn lemma_sv_props_index(l: Seq<(String, Schema)>, i: int)
    requires
        0 <= i < l.len(),
    ensures
        sv_props(l).len() == l.len(),
        sv_props(l)[i] == (l[i].0@, sv(l[i].1)),
    decreases l,
{
    if i > 0 {
        lemma_sv_props_index(l.drop_first(), i - 1);
    } else {
        lemma_sv_props_len(l);
    }
}

pub proof fn lemma_sv_props_push(l: Seq<(String, Schema)>, x: (String, Schema))
    ensures
        sv_props(l.push(x)) == sv_props(l).push((x.0@, sv(x.1))),
    decreases l,
{
    lemma_sv_props_len(l);
    lemma_sv_props_len(l.push(x));
    assert forall|i: int| 0 <= i < l.len() + 1 implies sv_props(l.push(x))[i] == sv_props(l).push(
        (x.0@, sv(x.1)),
    )[i] by {
        lemma_sv_props_index(l.push(x), i);
        if i < l.len() {
            lemma_sv_props_index(l, i);
            assert(l.push(x)[i] == l[i]);
        }
    }
    assert(sv_props(l.push(x)) =~= sv_props(l).push((x.0@, sv(x.1))));
}

impl Schema {
    /// An empty object schema, the resolution of a reference that cannot be
    /// found.
    pub fn empty_object() -> (r: Schema)
        ensures
            sv(r) == empty_object_v(),
    {
        let r = Schema {
            schema_type: Some(String::from_str("object")),
            format: None,
            properties: Vec::new(),
            items: None,
            reference: None,
            required: Vec::new(),
            nullable: false,
            all_of: Vec::new(),
            one_of: Vec::new(),
            any_of: Vec::new(),
        };
        proof {
            assert(name_set(r.required@) =~= Set::<Seq<char>>::empty());
            assert(sv_props(r.properties@) =~= Seq::<(Seq<char>, SchemaV)>::empty()) by {
                reveal_with_fuel(sv_props, 2);
            }
            assert(sv_list(r.all_of@) =~= Seq::<SchemaV>::empty()) by {
                reveal_with_fuel(sv_list, 2);
            }
            assert(sv(r) =~= empty_object_v());
        }
        r
    }

    /// Clone with an identical mathematical view.
    pub fn dup(&self) -> (r: Schema)
        ensures
            sv(r) == sv(*self),
        decreases *self,
    {
        let properties = dup_props(self, &self.properties);
        let items: Option<Box<Schema>> = match &self.items {
            Some(b) => {
                proof {
                    assert(decreases_to!(*self => self.items));
                }
                Some(Box::new((**b).dup()))
            },
            None => None,
        };
        let all_of = dup_list(self, &self.all_of, 0);
        let one_of = dup_list(self, &self.one_of, 1);
        let any_of = dup_list(self, &self.any_of, 2);
        let r = Schema {
            schema_type: match &self.schema_type {
                Some(s) => Some(s.clone()),
                None => None,
            },
            format: match &self.format {
                Some(s) => Some(s.clone()),
                None => None,
            },
            properties,
            items,
            reference: match &self.reference {
                Some(s) => Some(s.clone()),
                None => None,
            },
            required: dup_names(&self.required),
            nullable: self.nullable,
            all_of,
            one_of,
            any_of,
        };
        proof {
            assert(name_set(r.required@) =~= name_set(self.required@));
        }
        r
    }
}

/// Duplicate a name list.
pub(crate) fn dup_names(l: &Vec<String>) -> (r: Vec<String>)
    ensures
        r@.map_values(|s: String| s@) == l@.map_values(|s: String| s@),
{
    let mut out: Vec<String> = Vec::new();
    let mut i: usize = 0;
    while i < l.len()
        invariant
            i <= l@.len(),
            out@.len() == i as int,
            forall|j: int| 0 <= j < i ==> #[trigger] out@[j]@ == l@[j]@,
        decreases l@.len() - i,
    {
        out.push(l[i].clone());
        i = i + 1;
    }
    proof {
        assert(out@.map_values(|s: String| s@) =~= l@.map_values(|s: String| s@));
    }
    out
}

/// Duplicate a property list of `owner`, for `Schema::dup`.
fn dup_props(owner: &Schema, l: &Vec<(String, Schema)>) -> (r: Vec<(String, Schema)>)
    requires
        l == &owner.properties,
    ensures
        sv_props(r@) == sv_props(l@),
    decreases *owner, 0nat,
{
    let mut out: Vec<(String, Schema)> = Vec::new();
    let mut i: usize = 0;
    proof {
        lemma_sv_props_len(l@);
    }
    while i < l.len()
        invariant
            l == &owner.properties,
            sv_props(l@).len() == l@.len(),
            i <= l@.len(),
            sv_props(out@).len() == i as int,
            forall|j: int| 0 <= j < i ==> sv_props(out@)[j] == sv_props(l@)[j],
        decreases l@.len() - i,
    {
        proof {
            assert(decreases_to!(*owner => owner.properties));
            assert(decreases_to!(*owner => l@[i as int].1));
        }
        let k = l[i].0.clone();
        let e = l[i].1.dup();
        proof {
            lemma_sv_props_push(out@, (k, e));
            lemma_sv_props_index(l@, i as int);
        }
        out.push((k, e));
        i = i + 1;
    }
    proof {
        assert(sv_props(out@) =~= sv_props(l@));
    }
    out
}

/// Duplicate one composite list of `owner`, for `Schema::dup`.
fn dup_list(owner: &Schema, l: &Vec<Schema>, which: u8) -> (r: Vec<Schema>)
    requires
        which == 0 ==> l == &owner.all_of,
        which == 1 ==> l == &owner.one_of,
        which == 2 ==> l == &owner.any_of,
        which <= 2,
    ensures
        sv_list(r@) == sv_list(l@),
    decreases *owner, 0nat,
{
    let mut out: Vec<Schema> = Vec::new();
    let mut i: usize = 0;
    proof {
        lemma_sv_list_len(l@);
    }
    while i < l.len()
        invariant
            which == 0 ==> l == &owner.all_of,
            which == 1 ==> l == &owner.one_of,
            which == 2 ==> l == &owner.any_of,
            which <= 2,
            sv_list(l@).len() == l@.len(),
            i <= l@.len(),
            sv_list(out@).len() == i as int,
            forall|j: int| 0 <= j < i ==> sv_list(out@)[j] == sv_list(l@)[j],
        decreases l@.len() - i,
    {
        proof {
            if which == 0 {
                assert(decreases_to!(*owner => owner.all_of));
            } else if which == 1 {
                assert(decreases_to!(*owner => owner.one_of));
            } else {
                assert(decreases_to!(*owner => owner.any_of));
            }
            assert(decreases_to!(*owner => l@[i as int]));
        }
        let e = l[i].dup();
        proof {
            lemma_sv_list_push(out@, e);
            lemma_sv_list_index(l@, i as int);
        }
        out.push(e);
        i = i + 1;
    }
    proof {
        assert(sv_list(out@) =~= sv_list(l@));
    }
    out
}

/// The view of an empty object schema.
pub open spec fn empty_object_v() -> SchemaV {
    SchemaV {
        schema_type: Some("object"@),
        format: None,
        properties: Seq::empty(),
        items: Seq::empty(),
        reference: None,
        required: Set::empty(),
        nullable: false,
        all_of: Seq::empty(),
        one_of: Seq::empty(),
        any_of: Seq::empty(),
    }
}

impl OpenApiSpec {
    /// The spec's default base URL: the first server's URL.
    pub fn base_url(&self) -> (r: Option<&str>)
        ensures
            self.servers@.len() > 0 ==> r is Some && r->0@ == self.servers@[0].url@,
            self.servers@.len() == 0 ==> r is None,
    {
        if self.servers.len() > 0 {
            Some(self.servers[0].url.as_str())
        } else {
            None
        }
    }

    /// The views of the component schemas, empty when no components are
    /// declared.
    pub open spec fn components_view(&self) -> Seq<(Seq<char>, SchemaV)> {
        match self.components {
            Some(c) => sv_props(c.schemas@),
            None => Seq::empty(),
        }
    }
}

} // verus!
