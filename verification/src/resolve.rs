//! Schema resolution: following `$ref` pointers and flattening `allOf`,
//! `oneOf` and `anyOf` composites into concrete property sets.
//!
//! Only references of the exact shape `#/components/schemas/<name>` resolve;
//! any other form, and any name the components do not declare, resolves to
//! an empty object schema.  `allOf` merges properties first-definition-wins
//! and unions the required names; `oneOf` and `anyOf` merge the same way but
//! force every merged property nullable and leave nothing required.  A
//! reference chain that revisits a name stops there and returns the node
//! unexpanded, so resolution terminates on self-referential documents.
//! Property schemas are not expanded in place: one call resolves one level.

use vstd::prelude::*;
use vstd::string::StrSliceExecFns;
use vstd::string::StringExecFns;
use crate::openapi::{OpenApiSpec, Schema, SchemaV, sv, sv_list, sv_props, name_set, empty_object_v, lemma_sv_list_len, lemma_sv_list_index, lemma_sv_props_len, lemma_sv_props_index, lemma_sv_props_push};
use crate::strutil;

verus! {

broadcast use vstd::std_specs::vec::group_vec_axioms;

/// The component name a reference designates: exactly
/// `#/components/schemas/` followed by a name without `/`.
pub open spec fn ref_name(r: Seq<char>) -> Option<Seq<char>> {
    let p = "#/components/schemas/"@;
    if p.is_prefix_of(r) && !r.skip(p.len() as int).contains('/') {
        Some(r.skip(p.len() as int))
    } else {
        None
    }
}

/// First-match lookup of a component schema by name.
pub open spec fn lookup_component(cs: Seq<(Seq<char>, SchemaV)>, name: Seq<char>) -> Option<
    SchemaV,
>
    decreases cs.len(),
{
    if cs.len() == 0 {
        None
    } else if cs[0].0 == name {
        Some(cs[0].1)
    } else {
        lookup_component(cs.drop_first(), name)
    }
}

pub proof fn lemma_lookup_component_skip(
    cs: Seq<(Seq<char>, SchemaV)>,
    name: Seq<char>,
    i: int,
)
    requires
        0 <= i <= cs.len(),
        forall|j: int| 0 <= j < i ==> cs[j].0 != name,
    ensures
        lookup_component(cs, name) == lookup_component(cs.skip(i), name),
    decreases i,
{
    if i > 0 {
        assert(cs.drop_first().skip(i - 1) =~= cs.skip(i));
        lemma_lookup_component_skip(cs.drop_first(), name, i - 1);
    } else {
        assert(cs.skip(0) =~= cs);
    }
}

/// A found component carries its name.
pub proof fn lemma_lookup_component_some(cs: Seq<(Seq<char>, SchemaV)>, name: Seq<char>)
    requires
        lookup_component(cs, name) is Some,
    ensures
        exists|i: int| 0 <= i < cs.len() && #[trigger] cs[i].0 == name,
    decreases cs.len(),
{
    if cs.len() > 0 {
        if cs[0].0 == name {
            assert(cs[0].0 == name);
        } else {
            lemma_lookup_component_some(cs.drop_first(), name);
            let i = choose|i: int|
                0 <= i < cs.drop_first().len() && #[trigger] cs.drop_first()[i].0 == name;
            assert(cs[i + 1].0 == name);
        }
    }
}

/// The names of the visited list.
pub open spec fn vnames(v: Seq<String>) -> Seq<Seq<char>> {
    v.map_values(|s: String| s@)
}

/// How many component entries have not been visited yet: the resolver's
/// termination measure.
pub open spec fn count_unvisited(cs: Seq<(Seq<char>, SchemaV)>, visited: Seq<Seq<char>>) -> nat
    decreases cs.len(),
{
    if cs.len() == 0 {
        0
    } else {
        (if visited.contains(cs[0].0) {
            0nat
        } else {
            1nat
        }) + count_unvisited(cs.drop_first(), visited)
    }
}

/// Visiting more names never raises the count.
pub proof fn lemma_count_mono(cs: Seq<(Seq<char>, SchemaV)>, visited: Seq<Seq<char>>, n: Seq<char>)
    ensures
        count_unvisited(cs, visited.push(n)) <= count_unvisited(cs, visited),
    decreases cs.len(),
{
    if cs.len() > 0 {
        lemma_count_mono(cs.drop_first(), visited, n);
        if visited.contains(cs[0].0) {
            assert(visited.push(n).contains(cs[0].0)) by {
                let i = choose|i: int| 0 <= i < visited.len() && visited[i] == cs[0].0;
                assert(visited.push(n)[i] == cs[0].0);
            }
        }
    }
}

/// Visiting the name of a present, unvisited component strictly lowers the
/// count.
pub proof fn lemma_count_push(cs: Seq<(Seq<char>, SchemaV)>, visited: Seq<Seq<char>>, n: Seq<char>)
    requires
        exists|i: int| 0 <= i < cs.len() && #[trigger] cs[i].0 == n,
        !visited.contains(n),
    ensures
        count_unvisited(cs, visited.push(n)) < count_unvisited(cs, visited),
    decreases cs.len(),
{
    let k = choose|i: int| 0 <= i < cs.len() && #[trigger] cs[i].0 == n;
    if k == 0 {
        assert(visited.push(n).contains(cs[0].0)) by {
            assert(visited.push(n)[visited.len() as int] == n);
        }
        lemma_count_mono(cs.drop_first(), visited, n);
    } else {
        assert(cs.drop_first()[k - 1].0 == n);
        lemma_count_push(cs.drop_first(), visited, n);
        if visited.contains(cs[0].0) {
            assert(visited.push(n).contains(cs[0].0)) by {
                let i = choose|i: int| 0 <= i < visited.len() && visited[i] == cs[0].0;
                assert(visited.push(n)[i] == cs[0].0);
            }
        }
    }
}

/// Whether a property list holds a name.
pub open spec fn prop_has(a: Seq<(Seq<char>, SchemaV)>, n: Seq<char>) -> bool
    decreases a.len(),
{
    if a.len() == 0 {
        false
    } else if a[0].0 == n {
        true
    } else {
        prop_has(a.drop_first(), n)
    }
}

/// First-match lookup in a property list.
pub open spec fn prop_lookup(a: Seq<(Seq<char>, SchemaV)>, n: Seq<char>) -> Option<SchemaV>
    decreases a.len(),
{
    if a.len() == 0 {
        None
    } else if a[0].0 == n {
        Some(a[0].1)
    } else {
        prop_lookup(a.drop_first(), n)
    }
}

pub proof fn lemma_prop_has_skip(a: Seq<(Seq<char>, SchemaV)>, n: Seq<char>, i: int)
    requires
        0 <= i <= a.len(),
        forall|j: int| 0 <= j < i ==> a[j].0 != n,
    ensures
        prop_has(a, n) == prop_has(a.skip(i), n),
        prop_lookup(a, n) == prop_lookup(a.skip(i), n),
    decreases i,
{
    if i > 0 {
        assert(a.drop_first().skip(i - 1) =~= a.skip(i));
        lemma_prop_has_skip(a.drop_first(), n, i - 1);
    } else {
        assert(a.skip(0) =~= a);
    }
}

/// One member's contribution to a merge: its properties, each forced
/// nullable for an `oneOf`/`anyOf` merge.
pub open spec fn props_of_member(m: SchemaV, force_null: bool) -> Seq<(Seq<char>, SchemaV)> {
    if force_null {
        m.properties.map_values(
            |p: (Seq<char>, SchemaV)| (p.0, SchemaV { nullable: true, ..p.1 }),
        )
    } else {
        m.properties
    }
}

/// Append the entries of `b` whose names `a` does not hold yet: the
/// first-definition-wins union.
pub open spec fn append_new(
    a: Seq<(Seq<char>, SchemaV)>,
    b: Seq<(Seq<char>, SchemaV)>,
) -> Seq<(Seq<char>, SchemaV)>
    decreases b.len(),
{
    if b.len() == 0 {
        a
    } else if prop_has(a, b[0].0) {
        append_new(a, b.drop_first())
    } else {
        append_new(a.push(b[0]), b.drop_first())
    }
}

/// The merged property list of resolved members, in member order.
pub open spec fn merge_props_acc(
    acc: Seq<(Seq<char>, SchemaV)>,
    rs: Seq<SchemaV>,
    force_null: bool,
) -> Seq<(Seq<char>, SchemaV)>
    decreases rs.len(),
{
    if rs.len() == 0 {
        acc
    } else {
        merge_props_acc(append_new(acc, props_of_member(rs[0], force_null)), rs.drop_first(),
            force_null)
    }
}

/// The union of the members' required names.
pub open spec fn req_union(rs: Seq<SchemaV>) -> Set<Seq<char>>
    decreases rs.len(),
{
    if rs.len() == 0 {
        Set::empty()
    } else {
        rs[0].required + req_union(rs.drop_first())
    }
}

/// The merge of resolved members: an object schema holding the
/// first-definition-wins union of their properties; an `allOf` merge unions
/// the required names, an `oneOf`/`anyOf` merge requires nothing.
pub open spec fn merged(rs: Seq<SchemaV>, force_null: bool) -> SchemaV {
    SchemaV {
        schema_type: Some("object"@),
        format: None,
        properties: merge_props_acc(Seq::empty(), rs, force_null),
        items: Seq::empty(),
        reference: None,
        required: if force_null {
            Set::empty()
        } else {
            req_union(rs)
        },
        nullable: false,
        all_of: Seq::empty(),
        one_of: Seq::empty(),
        any_of: Seq::empty(),
    }
}

/// One level of resolution.  A reference is followed unless its name was
/// already visited on this chain (the node is then returned unexpanded); a
/// reference of any other shape, or to an undeclared name, yields the empty
/// object schema.  A composite node merges its resolved members.  Any other
/// node is already concrete.
pub open spec fn resolve_v(
    cs: Seq<(Seq<char>, SchemaV)>,
    s: SchemaV,
    visited: Seq<Seq<char>>,
) -> SchemaV
    decreases count_unvisited(cs, visited), s,
    via resolve_v_dec
{
    match s.reference {
        Some(r) => match ref_name(r) {
            Some(n) => if visited.contains(n) {
                s
            } else {
                match lookup_component(cs, n) {
                    Some(t) => resolve_v(cs, t, visited.push(n)),
                    None => empty_object_v(),
                }
            },
            None => empty_object_v(),
        },
        None => if s.all_of.len() > 0 {
            merged(resolve_list_v(cs, s.all_of, visited), false)
        } else if s.one_of.len() > 0 {
            merged(resolve_list_v(cs, s.one_of, visited), true)
        } else if s.any_of.len() > 0 {
            merged(resolve_list_v(cs, s.any_of, visited), true)
        } else {
            s
        },
    }
}

/// The members of a composite, each resolved.
pub open spec fn resolve_list_v(
    cs: Seq<(Seq<char>, SchemaV)>,
    l: Seq<SchemaV>,
    visited: Seq<Seq<char>>,
) -> Seq<SchemaV>
    decreases count_unvisited(cs, visited), l,
{
    if l.len() == 0 {
        Seq::empty()
    } else {
        seq![resolve_v(cs, l[0], visited)] + resolve_list_v(cs, l.drop_first(), visited)
    }
}

#[via_fn]
proof fn resolve_v_dec(cs: Seq<(Seq<char>, SchemaV)>, s: SchemaV, visited: Seq<Seq<char>>) {
    match s.reference {
        Some(r) => match ref_name(r) {
            Some(n) => {
                if !visited.contains(n) && lookup_component(cs, n) is Some {
                    lemma_lookup_component_some(cs, n);
                    lemma_count_push(cs, visited, n);
                }
            },
            None => {},
        },
        None => {},
    }
}

pub proof fn lemma_resolve_list_len(
    cs: Seq<(Seq<char>, SchemaV)>,
    l: Seq<SchemaV>,
    visited: Seq<Seq<char>>,
)
    ensures
        resolve_list_v(cs, l, visited).len() == l.len(),
    decreases l.len(),
{
    if l.len() > 0 {
        lemma_resolve_list_len(cs, l.drop_first(), visited);
    }
}

pub proof fn lemma_resolve_list_index(
    cs: Seq<(Seq<char>, SchemaV)>,
    l: Seq<SchemaV>,
    visited: Seq<Seq<char>>,
    i: int,
)
    requires
        0 <= i < l.len(),
    ensures
        resolve_list_v(cs, l, visited).len() == l.len(),
        resolve_list_v(cs, l, visited)[i] == resolve_v(cs, l[i], visited),
    decreases l.len(),
{
    if i > 0 {
        lemma_resolve_list_index(cs, l.drop_first(), visited, i - 1);
        lemma_resolve_list_len(cs, l, visited);
    } else {
        lemma_resolve_list_len(cs, l, visited);
    }
}

/// Whether a name list holds a name.
fn contains_name(l: &Vec<String>, s: &str) -> (r: bool)
    ensures
        r == vnames(l@).contains(s@),
{
    let mut i: usize = 0;
    while i < l.len()
        invariant
            i <= l@.len(),
            forall|j: int| 0 <= j < i ==> vnames(l@)[j] != s@,
        decreases l@.len() - i,
    {
        if strutil::str_eq(l[i].as_str(), s) {
            proof {
                assert(vnames(l@)[i as int] == s@);
            }
            return true;
        }
        i = i + 1;
    }
    proof {
        assert forall|j: int| 0 <= j < vnames(l@).len() implies vnames(l@)[j] != s@ by {}
    }
    false
}

/// Whether the property list holds a name.
fn has_prop(props: &Vec<(String, Schema)>, name: &str) -> (r: bool)
    ensures
        r == prop_has(sv_props(props@), name@),
{
    proof {
        lemma_sv_props_len(props@);
    }
    let mut i: usize = 0;
    while i < props.len()
        invariant
            sv_props(props@).len() == props@.len(),
            i <= props@.len(),
            forall|j: int| 0 <= j < i ==> sv_props(props@)[j].0 != name@,
        decreases props@.len() - i,
    {
        proof {
            lemma_sv_props_index(props@, i as int);
        }
        if strutil::str_eq(props[i].0.as_str(), name) {
            proof {
                lemma_prop_has_skip(sv_props(props@), name@, i as int);
                assert(sv_props(props@).skip(i as int)[0] == sv_props(props@)[i as int]);
                assert(sv_props(props@).skip(i as int).len() > 0);
            }
            return true;
        }
        i = i + 1;
    }
    proof {
        lemma_prop_has_skip(sv_props(props@), name@, props@.len() as int);
        assert(sv_props(props@).skip(props@.len() as int).len() == 0);
    }
    false
}

impl OpenApiSpec {
    /// Look a reference up among the component schemas.  Only the exact
    /// shape `#/components/schemas/<name>` designates anything.
    pub fn resolve_ref(&self, reference: &str) -> (r: Option<&Schema>)
        ensures
            match r {
                Some(s) => ref_name(reference@) is Some && lookup_component(
                    self.components_view(),
                    ref_name(reference@)->0,
                ) == Some(sv(*s)),
                None => ref_name(reference@) is None || lookup_component(
                    self.components_view(),
                    ref_name(reference@)->0,
                ) is None,
            },
    {
        let prefix = "#/components/schemas/";
        if !strutil::str_starts_with(reference, prefix) {
            return None;
        }
        let plen: usize = prefix.unicode_len();
        let rlen: usize = reference.unicode_len();
        let name = reference.substring_char(plen, rlen);
        proof {
            assert(name@ =~= reference@.skip(plen as int));
        }
        if strutil::str_contains_char(name, '/') {
            return None;
        }
        let ghost n = ref_name(reference@)->0;
        match &self.components {
            None => {
                proof {
                    assert(self.components_view().len() == 0);
                }
                None
            },
            Some(c) => {
                proof {
                    lemma_sv_props_len(c.schemas@);
                }
                let mut i: usize = 0;
                while i < c.schemas.len()
                    invariant
                        self.components == Some(*c),
                        ref_name(reference@) is Some,
                        n == ref_name(reference@)->0,
                        name@ == n,
                        sv_props(c.schemas@).len() == c.schemas@.len(),
                        i <= c.schemas@.len(),
                        forall|j: int| 0 <= j < i ==> sv_props(c.schemas@)[j].0 != n,
                    decreases c.schemas@.len() - i,
                {
                    proof {
                        lemma_sv_props_index(c.schemas@, i as int);
                    }
                    if strutil::str_eq(c.schemas[i].0.as_str(), name) {
                        proof {
                            lemma_lookup_component_skip(sv_props(c.schemas@), n, i as int);
                            assert(sv_props(c.schemas@).skip(i as int)[0] == sv_props(
                                c.schemas@,
                            )[i as int]);
                            assert(sv_props(c.schemas@).skip(i as int).len() > 0);
                        }
                        return Some(&c.schemas[i].1);
                    }
                    i = i + 1;
                }
                proof {
                    lemma_lookup_component_skip(sv_props(c.schemas@), n, c.schemas@.len() as int);
                    assert(sv_props(c.schemas@).skip(c.schemas@.len() as int).len() == 0);
                }
                None
            },
        }
    }

    /// Resolve a schema one level: follow its reference or flatten its
    /// composite, per `resolve_v`, starting from an empty visited chain.
    pub fn resolve_schema(&self, schema: &Schema) -> (r: Schema)
        ensures
            sv(r) == resolve_v(self.components_view(), sv(*schema), Seq::empty()),
    {
        let visited: Vec<String> = Vec::new();
        proof {
            assert(vnames(visited@) =~= Seq::<Seq<char>>::empty());
        }
        self.resolve_rec(schema, &visited)
    }

    /// The recursive worker behind `resolve_schema`, carrying the chain of
    /// visited reference names.
    fn resolve_rec(&self, schema: &Schema, visited: &Vec<String>) -> (r: Schema)
        ensures
            sv(r) == resolve_v(self.components_view(), sv(*schema), vnames(visited@)),
        decreases count_unvisited(self.components_view(), vnames(visited@)), *schema, 1nat,
    {
        let ghost cs = self.components_view();
        let ghost vn = vnames(visited@);
        match &schema.reference {
            Some(reference) => {
                let name = match ref_name_exec(reference.as_str()) {
                    None => {
                        return Schema::empty_object();
                    },
                    Some(name) => name,
                };
                if contains_name(visited, name.as_str()) {
                    return schema.dup();
                }
                match self.resolve_ref(reference.as_str()) {
                    None => Schema::empty_object(),
                    Some(target) => {
                        let mut v2 = crate::openapi::dup_names(visited);
                        v2.push(name.clone());
                        proof {
                            assert(vnames(v2@) =~= vn.push(name@));
                            lemma_lookup_component_some(cs, name@);
                            lemma_count_push(cs, vn, name@);
                        }
                        self.resolve_rec(target, &v2)
                    },
                }
            },
            None => {
                proof {
                    lemma_sv_list_len(schema.all_of@);
                    lemma_sv_list_len(schema.one_of@);
                    lemma_sv_list_len(schema.any_of@);
                }
                if schema.all_of.len() > 0 {
                    proof {
                        assert(decreases_to!(*schema => schema.all_of));
                    }
                    self.merge_with(&schema.all_of, false, visited)
                } else if schema.one_of.len() > 0 {
                    proof {
                        assert(decreases_to!(*schema => schema.one_of));
                    }
                    self.merge_with(&schema.one_of, true, visited)
                } else if schema.any_of.len() > 0 {
                    proof {
                        assert(decreases_to!(*schema => schema.any_of));
                    }
                    self.merge_with(&schema.any_of, true, visited)
                } else {
                    schema.dup()
                }
            },
        }
    }

    /// Merge multiple schemas into one, per `merged`: each member resolved,
    /// properties united first-definition-wins; with `make_nullable` every
    /// merged property is forced nullable and nothing stays required, as
    /// `oneOf`/`anyOf` composition asks.
    pub fn merge_schemas(&self, schemas: &Vec<Schema>, make_nullable: bool) -> (r: Schema)
        ensures
            sv(r) == merged(
                resolve_list_v(self.components_view(), sv_list(schemas@), Seq::empty()),
                make_nullable,
            ),
    {
        let visited: Vec<String> = Vec::new();
        proof {
            assert(vnames(visited@) =~= Seq::<Seq<char>>::empty());
        }
        self.merge_with(schemas, make_nullable, &visited)
    }

    /// The merge worker, carrying the chain of visited reference names.
    fn merge_with(
        &self,
        members: &Vec<Schema>,
        force_null: bool,
        visited: &Vec<String>,
    ) -> (r: Schema)
        ensures
            sv(r) == merged(
                resolve_list_v(self.components_view(), sv_list(members@), vnames(visited@)),
                force_null,
            ),
        decreases count_unvisited(self.components_view(), vnames(visited@)), *members, 0nat,
    {
        let ghost cs = self.components_view();
        let ghost vn = vnames(visited@);
        let ghost rsv = resolve_list_v(cs, sv_list(members@), vn);
        proof {
            lemma_sv_list_len(members@);
            lemma_resolve_list_len(cs, sv_list(members@), vn);
        }
        let mut props: Vec<(String, Schema)> = Vec::new();
        let mut required: Vec<String> = Vec::new();
        let mut k: usize = 0;
        proof {
            assert(rsv.skip(0) =~= rsv);
            assert(merge_props_acc(sv_props(props@), rsv, force_null) == merge_props_acc(
                Seq::empty(),
                rsv,
                force_null,
            ));
            assert(name_set(required@) =~= Set::<Seq<char>>::empty());
            assert(name_set(required@) + req_union(rsv) =~= req_union(rsv));
        }
        while k < members.len()
            invariant
                cs == self.components_view(),
                vn == vnames(visited@),
                rsv == resolve_list_v(cs, sv_list(members@), vn),
                sv_list(members@).len() == members@.len(),
                rsv.len() == members@.len(),
                k <= members@.len(),
                merge_props_acc(Seq::empty(), rsv, force_null) == merge_props_acc(
                    sv_props(props@),
                    rsv.skip(k as int),
                    force_null,
                ),
                !force_null ==> req_union(rsv) == name_set(required@) + req_union(
                    rsv.skip(k as int),
                ),
                force_null ==> required@.len() == 0,
            decreases members@.len() - k,
        {
            proof {
                assert(decreases_to!(*members => members@[k as int]));
                lemma_sv_list_index(members@, k as int);
                lemma_resolve_list_index(cs, sv_list(members@), vn, k as int);
                assert(rsv.skip(k as int)[0] == rsv[k as int]);
                assert(rsv.skip(k as int).drop_first() =~= rsv.skip(k as int + 1));
            }
            let resolved = self.resolve_rec(&members[k], visited);
            proof {
                assert(sv(resolved) == rsv[k as int]);
                lemma_sv_props_len(resolved.properties@);
            }
            let ghost pstart = sv_props(props@);
            let ghost pm = props_of_member(rsv[k as int], force_null);
            let mut j: usize = 0;
            proof {
                assert(pm.skip(0) =~= pm);
            }
            while j < resolved.properties.len()
                invariant
                    sv(resolved) == rsv.skip(k as int)[0],
                    pm == props_of_member(sv(resolved), force_null),
                    sv_props(resolved.properties@).len() == resolved.properties@.len(),
                    pm.len() == resolved.properties@.len(),
                    j <= resolved.properties@.len(),
                    append_new(pstart, pm) == append_new(sv_props(props@), pm.skip(j as int)),
                decreases resolved.properties@.len() - j,
            {
                proof {
                    lemma_sv_props_index(resolved.properties@, j as int);
                    assert(pm.skip(j as int)[0] == pm[j as int]);
                    assert(pm.skip(j as int).drop_first() =~= pm.skip(j as int + 1));
                }
                let pname = &resolved.properties[j].0;
                if !has_prop(&props, pname.as_str()) {
                    let mut p2 = resolved.properties[j].1.dup();
                    if force_null {
                        p2.nullable = true;
                    }
                    let ghost pre0 = props@;
                    let ghost pre = sv_props(props@);
                    let entry = (pname.clone(), p2);
                    let ghost gentry = entry;
                    proof {
                        assert(sv(gentry.1) =~= pm[j as int].1);
                        lemma_sv_props_push(pre0, gentry);
                    }
                    props.push(entry);
                    proof {
                        assert(sv_props(props@) =~= pre.push(pm[j as int]));
                    }
                }
                j = j + 1;
            }
            proof {
                assert(pm.skip(resolved.properties@.len() as int).len() == 0);
                assert(append_new(pstart, pm) == sv_props(props@));
            }
            if !force_null {
                let ghost rstart = name_set(required@);
                let mut j2: usize = 0;
                proof {
                    assert(name_set(resolved.required@.take(0)) =~= Set::<Seq<char>>::empty());
                    assert(rstart + name_set(resolved.required@.take(0)) =~= rstart);
                }
                while j2 < resolved.required.len()
                    invariant
                        sv(resolved) == rsv.skip(k as int)[0],
                        j2 <= resolved.required@.len(),
                        name_set(required@) == rstart + name_set(
                            resolved.required@.take(j2 as int),
                        ),
                    decreases resolved.required@.len() - j2,
                {
                    let rname = &resolved.required[j2];
                    let ghost before = name_set(required@);
                    if !contains_name(&required, rname.as_str()) {
                        let ghost prev = required@;
                        let pushed = rname.clone();
                        let ghost gpushed = pushed;
                        required.push(pushed);
                        proof {
                            crate::openapi::lemma_name_set_push(prev, gpushed);
                            assert(name_set(required@) == before.insert(rname@));
                        }
                    } else {
                        proof {
                            assert(before.contains(rname@));
                            assert(name_set(required@) =~= before.insert(rname@));
                        }
                    }
                    j2 = j2 + 1;
                    proof {
                        assert(resolved.required@.take(j2 as int) =~= resolved.required@.take(
                            j2 as int - 1,
                        ).push(resolved.required@[j2 as int - 1]));
                        crate::openapi::lemma_name_set_push(
                            resolved.required@.take(j2 as int - 1),
                            resolved.required@[j2 as int - 1],
                        );
                        assert(name_set(required@) =~= rstart + name_set(
                            resolved.required@.take(j2 as int),
                        ));
                    }
                }
                proof {
                    assert(resolved.required@.take(resolved.required@.len() as int)
                        =~= resolved.required@);
                    assert(name_set(required@) =~= rstart + sv(resolved).required);
                    assert(name_set(required@) + req_union(rsv.skip(k as int + 1)) =~= rstart
                        + req_union(rsv.skip(k as int)));
                }
            }
            k = k + 1;
        }
        proof {
            assert(rsv.skip(members@.len() as int).len() == 0);
            assert(merge_props_acc(Seq::empty(), rsv, force_null) == sv_props(props@));
            if !force_null {
                assert(req_union(rsv) =~= name_set(required@) + req_union(
                    rsv.skip(members@.len() as int),
                ));
                assert(req_union(rsv) =~= name_set(required@));
            }
        }
        let r = Schema {
            schema_type: Some(String::from_str("object")),
            format: None,
            properties: props,
            items: None,
            reference: None,
            required,
            nullable: false,
            all_of: Vec::new(),
            one_of: Vec::new(),
            any_of: Vec::new(),
        };
        proof {
            assert(sv_list(r.all_of@) =~= Seq::<SchemaV>::empty()) by {
                reveal_with_fuel(sv_list, 2);
            }
            assert(sv_list(r.one_of@) =~= Seq::<SchemaV>::empty()) by {
                reveal_with_fuel(sv_list, 2);
            }
            assert(sv_list(r.any_of@) =~= Seq::<SchemaV>::empty()) by {
                reveal_with_fuel(sv_list, 2);
            }
            if force_null {
                assert(name_set(r.required@) =~= Set::<Seq<char>>::empty());
            }
            assert(sv(r) =~= merged(rsv, force_null));
        }
        r
    }
}

/// Parse the component name out of a reference, per `ref_name`.
fn ref_name_exec(reference: &str) -> (r: Option<String>)
    ensures
        match r {
            Some(n) => ref_name(reference@) == Some(n@),
            None => ref_name(reference@) is None,
        },
{
    let prefix = "#/components/schemas/";
    if !strutil::str_starts_with(reference, prefix) {
        return None;
    }
    let plen: usize = prefix.unicode_len();
    let rlen: usize = reference.unicode_len();
    let name = reference.substring_char(plen, rlen);
    proof {
        assert(name@ =~= reference@.skip(plen as int));
    }
    if strutil::str_contains_char(name, '/') {
        return None;
    }
    Some(name.to_owned())
}

/// A concrete schema: no reference and no composite list, safe to read
/// directly.
pub open spec fn is_concrete(s: SchemaV) -> bool {
    &&& s.reference is None
    &&& s.all_of.len() == 0
    &&& s.one_of.len() == 0
    &&& s.any_of.len() == 0
}

/// Resolution is idempotent: a schema that is already concrete (free of
/// references and composites) resolves to itself, whatever the components
/// and the visited chain.
pub proof fn law_resolve_concrete(
    cs: Seq<(Seq<char>, SchemaV)>,
    s: SchemaV,
    visited: Seq<Seq<char>>,
)
    requires
        is_concrete(s),
    ensures
        resolve_v(cs, s, visited) == s,
{
    reveal_with_fuel(resolve_v, 2);
}

/// Membership and first-match lookup after appending one entry.
pub proof fn lemma_prop_push(a: Seq<(Seq<char>, SchemaV)>, e: (Seq<char>, SchemaV), n: Seq<char>)
    ensures
        prop_has(a.push(e), n) == (prop_has(a, n) || e.0 == n),
        prop_lookup(a.push(e), n) == if prop_has(a, n) {
            prop_lookup(a, n)
        } else if e.0 == n {
            Some(e.1)
        } else {
            None::<SchemaV>
        },
    decreases a.len(),
{
    if a.len() == 0 {
        assert(a.push(e)[0] == e);
        assert(a.push(e).drop_first() =~= Seq::<(Seq<char>, SchemaV)>::empty());
        assert(prop_has(a.push(e).drop_first(), n) == false);
        assert(prop_lookup(a.push(e).drop_first(), n) is None);
    } else {
        assert(a.push(e)[0] == a[0]);
        assert(a.push(e).drop_first() =~= a.drop_first().push(e));
        lemma_prop_push(a.drop_first(), e, n);
    }
}

/// A property list holds a name exactly when lookup finds it.
pub proof fn lemma_prop_has_lookup(a: Seq<(Seq<char>, SchemaV)>, n: Seq<char>)
    ensures
        prop_has(a, n) == (prop_lookup(a, n) is Some),
    decreases a.len(),
{
    if a.len() > 0 && a[0].0 != n {
        lemma_prop_has_lookup(a.drop_first(), n);
    }
}

/// Membership and first-match lookup through the first-definition-wins
/// union: names of `a` keep `a`'s definitions, the rest fall to `b`'s.
pub proof fn lemma_append_new_lookup(
    a: Seq<(Seq<char>, SchemaV)>,
    b: Seq<(Seq<char>, SchemaV)>,
    n: Seq<char>,
)
    ensures
        prop_has(append_new(a, b), n) == (prop_has(a, n) || prop_has(b, n)),
        prop_lookup(append_new(a, b), n) == if prop_has(a, n) {
            prop_lookup(a, n)
        } else {
            prop_lookup(b, n)
        },
    decreases b.len(),
{
    if b.len() == 0 {
        lemma_prop_has_lookup(a, n);
    } else {
        if prop_has(a, b[0].0) {
            lemma_append_new_lookup(a, b.drop_first(), n);
            if !prop_has(a, n) {
                assert(b[0].0 != n);
                assert(prop_lookup(b, n) == prop_lookup(b.drop_first(), n));
                assert(prop_has(b, n) == prop_has(b.drop_first(), n));
            }
        } else {
            lemma_append_new_lookup(a.push(b[0]), b.drop_first(), n);
            lemma_prop_push(a, b[0], n);
            if prop_has(a, n) {
                assert(prop_has(a.push(b[0]), n));
                assert(prop_lookup(a.push(b[0]), n) == prop_lookup(a, n));
            } else if b[0].0 == n {
                assert(prop_lookup(b, n) == Some(b[0].1));
                assert(prop_has(a.push(b[0]), n));
                assert(prop_lookup(a.push(b[0]), n) == Some(b[0].1));
            } else {
                assert(!prop_has(a.push(b[0]), n));
                assert(prop_lookup(b, n) == prop_lookup(b.drop_first(), n));
                assert(prop_has(b, n) == prop_has(b.drop_first(), n));
            }
        }
    }
}

/// Resolving each member of a list of concrete schemas leaves the list
/// unchanged.
pub proof fn lemma_resolve_list_concrete(
    cs: Seq<(Seq<char>, SchemaV)>,
    l: Seq<SchemaV>,
    visited: Seq<Seq<char>>,
)
    requires
        forall|i: int| 0 <= i < l.len() ==> is_concrete(#[trigger] l[i]),
    ensures
        resolve_list_v(cs, l, visited) == l,
    decreases l.len(),
{
    reveal_with_fuel(resolve_list_v, 2);
    if l.len() > 0 {
        assert(is_concrete(l[0]));
        law_resolve_concrete(cs, l[0], visited);
        lemma_resolve_list_concrete(cs, l.drop_first(), visited);
        assert(resolve_list_v(cs, l, visited) =~= l);
    }
}

/// An `allOf` of two concrete members keeps the first member's definition
/// of every property name the first member holds, and requires exactly the
/// union of the members' required names.
pub proof fn law_all_of_merge(
    cs: Seq<(Seq<char>, SchemaV)>,
    s: SchemaV,
    a: SchemaV,
    b: SchemaV,
    name: Seq<char>,
    visited: Seq<Seq<char>>,
)
    requires
        s.reference is None,
        s.all_of == seq![a, b],
        is_concrete(a),
        is_concrete(b),
        prop_has(a.properties, name),
    ensures
        resolve_v(cs, s, visited).required == a.required + b.required,
        prop_lookup(resolve_v(cs, s, visited).properties, name) == prop_lookup(
            a.properties,
            name,
        ),
{
    reveal_with_fuel(resolve_v, 2);
    reveal_with_fuel(req_union, 3);
    reveal_with_fuel(merge_props_acc, 3);
    assert(s.all_of.len() == 2);
    assert forall|i: int| 0 <= i < s.all_of.len() implies is_concrete(#[trigger] s.all_of[i]) by {
        if i == 0 {
            assert(s.all_of[0] == a);
        } else {
            assert(s.all_of[1] == b);
        }
    }
    lemma_resolve_list_concrete(cs, s.all_of, visited);
    let rs = s.all_of;
    assert(rs.drop_first() =~= seq![b]);
    assert(rs.drop_first().drop_first() =~= Seq::<SchemaV>::empty());
    assert(req_union(rs) =~= a.required + b.required);
    let p0 = append_new(Seq::empty(), a.properties);
    assert(merge_props_acc(Seq::empty(), rs, false) == append_new(p0, b.properties));
    lemma_append_new_lookup(Seq::empty(), a.properties, name);
    lemma_append_new_lookup(p0, b.properties, name);
}

/// Every entry of the first-definition-wins union of all-nullable lists is
/// nullable.
pub proof fn lemma_append_new_nullable(
    a: Seq<(Seq<char>, SchemaV)>,
    b: Seq<(Seq<char>, SchemaV)>,
)
    requires
        forall|i: int| 0 <= i < a.len() ==> (#[trigger] a[i]).1.nullable,
        forall|i: int| 0 <= i < b.len() ==> (#[trigger] b[i]).1.nullable,
    ensures
        forall|i: int|
            0 <= i < append_new(a, b).len() ==> (#[trigger] append_new(a, b)[i]).1.nullable,
    decreases b.len(),
{
    if b.len() > 0 {
        assert(b[0].1.nullable);
        assert(forall|i: int|
            0 <= i < b.drop_first().len() ==> (#[trigger] b.drop_first()[i]).1.nullable);
        if prop_has(a, b[0].0) {
            lemma_append_new_nullable(a, b.drop_first());
        } else {
            assert(forall|i: int|
                0 <= i < a.push(b[0]).len() ==> (#[trigger] a.push(b[0])[i]).1.nullable);
            lemma_append_new_nullable(a.push(b[0]), b.drop_first());
        }
    }
}

/// Every property merged under forced nullability is nullable.
pub proof fn lemma_merge_props_nullable(
    acc: Seq<(Seq<char>, SchemaV)>,
    rs: Seq<SchemaV>,
)
    requires
        forall|i: int| 0 <= i < acc.len() ==> (#[trigger] acc[i]).1.nullable,
    ensures
        forall|i: int|
            0 <= i < merge_props_acc(acc, rs, true).len() ==> (#[trigger] merge_props_acc(
                acc,
                rs,
                true,
            )[i]).1.nullable,
    decreases rs.len(),
{
    if rs.len() > 0 {
        let pm = props_of_member(rs[0], true);
        assert(forall|i: int| 0 <= i < pm.len() ==> (#[trigger] pm[i]).1.nullable);
        lemma_append_new_nullable(acc, pm);
        lemma_merge_props_nullable(append_new(acc, pm), rs.drop_first());
    }
}

/// An `oneOf`/`anyOf` merge requires nothing and leaves every merged
/// property nullable, whatever the members hold.
pub proof fn law_one_of_merge(
    cs: Seq<(Seq<char>, SchemaV)>,
    s: SchemaV,
    visited: Seq<Seq<char>>,
)
    requires
        s.reference is None,
        s.all_of.len() == 0,
        s.one_of.len() > 0 || s.any_of.len() > 0,
    ensures
        resolve_v(cs, s, visited).required == Set::<Seq<char>>::empty(),
        forall|i: int|
            0 <= i < resolve_v(cs, s, visited).properties.len() ==> (#[trigger] resolve_v(
                cs,
                s,
                visited,
            ).properties[i]).1.nullable,
{
    reveal_with_fuel(resolve_v, 2);
    if s.one_of.len() > 0 {
        lemma_merge_props_nullable(
            Seq::empty(),
            resolve_list_v(cs, s.one_of, visited),
        );
    } else {
        lemma_merge_props_nullable(
            Seq::empty(),
            resolve_list_v(cs, s.any_of, visited),
        );
    }
}

} // verus!
