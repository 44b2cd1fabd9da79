//! Table generation: one relational table definition per queryable
//! endpoint that survives the import filter.
//!
//! Columns come from the resolved response schema's top-level properties
//! (for an array-of-objects response, from the item schema's properties),
//! mapped by type tag, plus a fixed `attrs` column that carries the whole
//! row as raw JSON.  An endpoint whose response schema has no usable shape
//! still produces a table with only the `attrs` column.

use vstd::prelude::*;
use vstd::string::StringExecFns;
use crate::openapi::{OpenApiSpec, Schema, SchemaV, sv};
use crate::resolve::{resolve_v, vnames};
use crate::endpoints::EndpointInfo;
use crate::cells::ColumnType;
use crate::strutil;

verus! {

broadcast use vstd::std_specs::vec::group_vec_axioms;

/// The column type a schema's type and format tags select.
pub open spec fn column_type_of(stype: Option<Seq<char>>, format: Option<Seq<char>>) -> ColumnType {
    match stype {
        Some(t) => if t == "boolean"@ {
            ColumnType::Bool
        } else if t == "integer"@ {
            if format == Some("int32"@) {
                ColumnType::I32
            } else {
                ColumnType::I64
            }
        } else if t == "number"@ {
            if format == Some("float"@) {
                ColumnType::F32
            } else {
                ColumnType::F64
            }
        } else if t == "string"@ {
            if format == Some("date"@) {
                ColumnType::Date
            } else if format == Some("date-time"@) {
                ColumnType::Timestamp
            } else if format == Some("uuid"@) {
                ColumnType::Uuid
            } else {
                ColumnType::Text
            }
        } else {
            ColumnType::Json
        },
        None => ColumnType::Json,
    }
}

/// The column type of one property schema.
pub fn column_type(schema: &Schema) -> (r: ColumnType)
    ensures
        r == column_type_of(sv(*schema).schema_type, sv(*schema).format),
{
    match &schema.schema_type {
        None => ColumnType::Json,
        Some(t) => {
            if strutil::str_eq(t.as_str(), "boolean") {
                ColumnType::Bool
            } else if strutil::str_eq(t.as_str(), "integer") {
                if format_is(&schema.format, "int32") {
                    ColumnType::I32
                } else {
                    ColumnType::I64
                }
            } else if strutil::str_eq(t.as_str(), "number") {
                if format_is(&schema.format, "float") {
                    ColumnType::F32
                } else {
                    ColumnType::F64
                }
            } else if strutil::str_eq(t.as_str(), "string") {
                if format_is(&schema.format, "date") {
                    ColumnType::Date
                } else if format_is(&schema.format, "date-time") {
                    ColumnType::Timestamp
                } else if format_is(&schema.format, "uuid") {
                    ColumnType::Uuid
                } else {
                    ColumnType::Text
                }
            } else {
                ColumnType::Json
            }
        },
    }
}

/// Whether an optional format tag equals the given text.
fn format_is(format: &Option<String>, text: &str) -> (r: bool)
    ensures
        r == (crate::openapi::ostr(*format) == Some(text@)),
{
    match format {
        Some(f) => strutil::str_eq(f.as_str(), text),
        None => false,
    }
}

/// One table definition: name, typed columns, and the mutation verbs the
/// endpoint supports.
pub struct TableDef {
    pub name: String,
    pub columns: Vec<(String, ColumnType)>,
    pub supports_post: bool,
    pub supports_patch: bool,
    pub supports_delete: bool,
}

/// The inclusion filter of a schema import: everything, only the named
/// tables, or everything but the named tables.
pub enum ImportFilter {
    All,
    LimitTo(Vec<String>),
    Except(Vec<String>),
}

/// Whether the filter keeps a table name.
pub open spec fn filter_keeps(f: ImportFilter, name: Seq<char>) -> bool {
    match f {
        ImportFilter::All => true,
        ImportFilter::LimitTo(l) => vnames(l@).contains(name),
        ImportFilter::Except(l) => !vnames(l@).contains(name),
    }
}

/// Whether the filter keeps a table name, per `filter_keeps`.
pub fn filter_keeps_exec(f: &ImportFilter, name: &str) -> (r: bool)
    ensures
        r == filter_keeps(*f, name@),
{
    match f {
        ImportFilter::All => true,
        ImportFilter::LimitTo(l) => list_has(l, name),
        ImportFilter::Except(l) => !list_has(l, name),
    }
}

/// Whether a name list holds a name.
fn list_has(l: &Vec<String>, s: &str) -> (r: bool)
    ensures
        r == vnames(l@).contains(s@),
{
    let mut i: usize = 0;
    while i < l.len()
        invariant
            i <= l@.len(),
            forall|j: int| 0 <= j < i ==> vnames(l@)[j] != s@,
        decreases l@.len() - i,
    {
        if strutil::str_eq(l[i].as_str(), s) {
            proof {
                assert(vnames(l@)[i as int] == s@);
            }
            return true;
        }
        i = i + 1;
    }
    false
}

/// The property list a table's columns come from: the resolved response
/// schema's properties, or the resolved item schema's properties when the
/// response is an array; no schema contributes none.
pub open spec fn table_props(
    cs: Seq<(Seq<char>, SchemaV)>,
    response_schema: Option<SchemaV>,
) -> Seq<(Seq<char>, SchemaV)> {
    match response_schema {
        None => Seq::empty(),
        Some(s) => {
            let r = resolve_v(cs, s, Seq::empty());
            if r.schema_type == Some("array"@) && r.items.len() > 0 {
                resolve_v(cs, r.items[0], Seq::empty()).properties
            } else {
                r.properties
            }
        },
    }
}

/// The columns of a table: one per source property, in order, plus the
/// trailing `attrs` column holding the whole row as raw JSON.
pub open spec fn table_columns_of(props: Seq<(Seq<char>, SchemaV)>) -> Seq<(Seq<char>, ColumnType)> {
    props.map_values(
        |p: (Seq<char>, SchemaV)| (p.0, column_type_of(p.1.schema_type, p.1.format)),
    ).push(("attrs"@, ColumnType::Json))
}

/// The views of a column list.
pub open spec fn col_list(l: Seq<(String, ColumnType)>) -> Seq<(Seq<char>, ColumnType)> {
    l.map_values(|c: (String, ColumnType)| (c.0@, c.1))
}

/// Whether `t` derives from one of the first `bound` endpoints that the
/// filter keeps.
pub open spec fn table_from(
    cs: Seq<(Seq<char>, SchemaV)>,
    f: ImportFilter,
    es: Seq<EndpointInfo>,
    bound: int,
    t: TableDef,
) -> bool {
    exists|j: int|
        0 <= j < bound && filter_keeps(
            f,
            crate::endpoints::table_name_of((#[trigger] es[j]).path@),
        ) && table_matches(cs, t, es[j])
}

/// A table deriving from one of the first `bound` endpoints also derives
/// from one of the first `bound + 1`.
pub proof fn lemma_table_from_widen(
    cs: Seq<(Seq<char>, SchemaV)>,
    f: ImportFilter,
    es: Seq<EndpointInfo>,
    bound: int,
    t: TableDef,
)
    requires
        table_from(cs, f, es, bound, t),
    ensures
        table_from(cs, f, es, bound + 1, t),
{
    let w = choose|j: int|
        0 <= j < bound && filter_keeps(
            f,
            crate::endpoints::table_name_of((#[trigger] es[j]).path@),
        ) && table_matches(cs, t, es[j]);
    assert(0 <= w < bound + 1 && filter_keeps(
        f,
        crate::endpoints::table_name_of(es[w].path@),
    ) && table_matches(cs, t, es[w]));
}

/// Whether a table definition is the one an endpoint derives.
pub open spec fn table_matches(cs: Seq<(Seq<char>, SchemaV)>, t: TableDef, e: EndpointInfo) -> bool {
    &&& t.name@ == crate::endpoints::table_name_of(e.path@)
    &&& col_list(t.columns@) == table_columns_of(
        table_props(
            cs,
            match e.response_schema {
                Some(s) => Some(sv(s)),
                None => None,
            },
        ),
    )
    &&& t.supports_post == e.supports_post
    &&& t.supports_patch == e.supports_patch
    &&& t.supports_delete == e.supports_delete
}

impl OpenApiSpec {
    /// The table definition one endpoint derives, per `table_matches`.
    pub fn table_for_endpoint(&self, e: &EndpointInfo) -> (r: TableDef)
        ensures
            table_matches(self.components_view(), r, *e),
    {
        let ghost cs = self.components_view();
        let mut columns: Vec<(String, ColumnType)> = Vec::new();
        let props: Option<Schema> = match &e.response_schema {
            None => None,
            Some(s) => {
                let resolved = self.resolve_schema(s);
                let is_array = match &resolved.schema_type {
                    Some(t) => strutil::str_eq(t.as_str(), "array"),
                    None => false,
                };
                if is_array {
                    match resolved.items {
                        Some(items) => Some(self.resolve_schema(&items)),
                        None => Some(resolved),
                    }
                } else {
                    Some(resolved)
                }
            },
        };
        let ghost gprops = table_props(
            cs,
            if e.response_schema is Some {
                Some(sv(e.response_schema->0))
            } else {
                None
            },
        );
        proof {
            if props is Some {
                assert(sv(props->0).properties == gprops);
            } else {
                assert(gprops =~= Seq::<(Seq<char>, SchemaV)>::empty());
            }
        }
        match &props {
            None => {},
            Some(p) => {
                proof {
                    crate::openapi::lemma_sv_props_len(p.properties@);
                }
                let mut i: usize = 0;
                while i < p.properties.len()
                    invariant
                        sv(*p).properties == gprops,
                        crate::openapi::sv_props(p.properties@).len() == p.properties@.len(),
                        i <= p.properties@.len(),
                        col_list(columns@) =~= gprops.take(i as int).map_values(
                            |pr: (Seq<char>, SchemaV)| (
                                pr.0,
                                column_type_of(pr.1.schema_type, pr.1.format),
                            ),
                        ),
                    decreases p.properties@.len() - i,
                {
                    proof {
                        crate::openapi::lemma_sv_props_index(p.properties@, i as int);
                        assert(gprops[i as int] == (
                            p.properties@[i as int].0@,
                            sv(p.properties@[i as int].1),
                        ));
                    }
                    let ct = column_type(&p.properties[i].1);
                    let entry = (p.properties[i].0.clone(), ct);
                    let ghost gentry = entry;
                    let ghost precols = columns@;
                    columns.push(entry);
                    i = i + 1;
                    proof {
                        assert(gentry.0@ == gprops[i as int - 1].0);
                        assert(gentry.1 == column_type_of(
                            gprops[i as int - 1].1.schema_type,
                            gprops[i as int - 1].1.format,
                        ));
                        assert(col_list(columns@) =~= col_list(precols).push(
                            (gentry.0@, gentry.1),
                        ));
                        assert(gprops.take(i as int) =~= gprops.take(i as int - 1).push(
                            gprops[i as int - 1],
                        ));
                        assert(col_list(columns@) =~= gprops.take(i as int).map_values(
                            |pr: (Seq<char>, SchemaV)| (
                                pr.0,
                                column_type_of(pr.1.schema_type, pr.1.format),
                            ),
                        ));
                    }
                }
                proof {
                    assert(gprops.take(gprops.len() as int) =~= gprops);
                }
            },
        }
        columns.push((String::from_str("attrs"), ColumnType::Json));
        proof {
            assert(col_list(columns@) =~= table_columns_of(gprops));
        }
        TableDef {
            name: e.table_name(),
            columns,
            supports_post: e.supports_post,
            supports_patch: e.supports_patch,
            supports_delete: e.supports_delete,
        }
    }

    /// The table definitions of the endpoints the filter keeps, in endpoint
    /// order.
    pub fn generate_tables(&self, endpoints: &Vec<EndpointInfo>, filter: &ImportFilter) -> (r:
        Vec<TableDef>)
        ensures
            r@.len() == count_kept(*filter, endpoints@),
            forall|k: int|
                0 <= k < r@.len() ==> table_from(
                    self.components_view(),
                    *filter,
                    endpoints@,
                    endpoints@.len() as int,
                    #[trigger] r@[k],
                ),
    {
        let ghost cs = self.components_view();
        let mut out: Vec<TableDef> = Vec::new();
        let mut j: usize = 0;
        proof {
            assert(endpoints@.take(0) =~= Seq::<EndpointInfo>::empty());
        }
        while j < endpoints.len()
            invariant
                j <= endpoints@.len(),
                out@.len() == count_kept(*filter, endpoints@.take(j as int)),
                cs == self.components_view(),
                forall|k: int|
                    0 <= k < out@.len() ==> table_from(
                        cs,
                        *filter,
                        endpoints@,
                        j as int,
                        #[trigger] out@[k],
                    ),
            decreases endpoints@.len() - j,
    {
            proof {
                assert(endpoints@.take(j as int + 1).drop_last() =~= endpoints@.take(j as int));
                assert(endpoints@.take(j as int + 1).last() == endpoints@[j as int]);
            }
            let ghost pre = out@;
            let name = endpoints[j].table_name();
            if filter_keeps_exec(filter, name.as_str()) {
                let t = self.table_for_endpoint(&endpoints[j]);
                let ghost gt = t;
                out.push(t);
                proof {
                    assert forall|k: int| 0 <= k < out@.len() implies table_from(
                        cs,
                        *filter,
                        endpoints@,
                        j as int + 1,
                        #[trigger] out@[k],
                    ) by {
                        if k < pre.len() {
                            assert(out@[k] == pre[k]);
                            assert(table_from(cs, *filter, endpoints@, j as int, pre[k]));
                            lemma_table_from_widen(cs, *filter, endpoints@, j as int, pre[k]);
                        } else {
                            assert(out@[k] == gt);
                            assert(0 <= j < j + 1 && filter_keeps(
                                *filter,
                                crate::endpoints::table_name_of(endpoints@[j as int].path@),
                            ) && table_matches(cs, gt, endpoints@[j as int]));
                        }
                    }
                }
            } else {
                proof {
                    assert forall|k: int| 0 <= k < out@.len() implies table_from(
                        cs,
                        *filter,
                        endpoints@,
                        j as int + 1,
                        #[trigger] out@[k],
                    ) by {
                        lemma_table_from_widen(cs, *filter, endpoints@, j as int, out@[k]);
                    }
                }
            }
            j = j + 1;
        }
        proof {
            assert(endpoints@.take(endpoints@.len() as int) =~= endpoints@);
        }
        out
    }
}

/// How many endpoints the filter keeps, by derived table name.
pub open spec fn count_kept(f: ImportFilter, es: Seq<EndpointInfo>) -> nat
    decreases es.len(),
{
    if es.len() == 0 {
        0
    } else {
        count_kept(f, es.drop_last()) + (if filter_keeps(
            f,
            crate::endpoints::table_name_of(es.last().path@),
        ) {
            1nat
        } else {
            0nat
        })
    }
}

} // verus!
