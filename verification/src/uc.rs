//! The catalog's table-schema model: what the metadata service returns
//! when a table name is resolved, and the conversion of its columns
//! into the schema fields the table layer consumes. The HTTPS lookup
//! itself runs outside the library; the conversion logic — composing
//! the full table name and keeping the columns whose type documents
//! parsed — is verified here.

use vstd::prelude::*;

verus! {

/// Options of the catalog client: host, token, and the catalog and
/// schema names a bare table name is resolved under.
#[derive(Debug, Clone)]
pub struct UnityCatalogOptions {
    pub db_api_host: String,
    pub db_api_token: String,
    pub default_catalog: String,
    pub default_schema: String,
}

/// Table properties the catalog reports.
pub struct Properties {
    pub delta_last_commit_timestamp: String,
    pub delta_last_update_version: String,
    pub delta_min_reader_version: String,
    pub delta_min_writer_version: String,
}

/// One column of a catalog table.
pub struct Column {
    pub name: String,
    pub type_text: String,
    pub type_json: String,
    pub type_label: String,
    pub type_precision: i64,
    pub type_scale: i64,
    pub position: i64,
    pub nullable: bool,
    pub partition_index: Option<i16>,
}

/// What the catalog returns for one table: its identity, columns,
/// storage location and bookkeeping.
pub struct UnityCatalogSchema {
    pub name: String,
    pub catalog_name: String,
    pub schema_name: String,
    pub table_type: String,
    pub data_source_format: String,
    pub columns: Vec<Column>,
    pub storage_location: String,
    pub owner: String,
    pub properties: Properties,
    pub generation: i64,
    pub metastore_id: String,
    pub full_name: String,
    pub data_access_configuration_id: String,
    pub created_at: i64,
    pub created_by: String,
    pub updated_at: i64,
    pub updated_by: String,
    pub table_id: String,
}

/// One schema field as the table layer consumes it, parsed from a
/// column's type document.
pub struct FieldSpec {
    pub name: String,
    pub type_label: String,
    pub nullable: bool,
}

/// The fields whose type documents parsed, in column order.
pub open spec fn present_fields(parsed: Seq<Option<FieldSpec>>) -> Seq<FieldSpec>
    decreases parsed.len(),
{
    if parsed.len() == 0 {
        Seq::empty()
    } else {
        let rest = present_fields(parsed.drop_last());
        match parsed.last() {
            Some(f) => rest.push(f),
            None => rest,
        }
    }
}

/// Keeps the columns whose type documents parsed, dropping the rest —
/// how a catalog table's columns become the table layer's schema
/// fields.
pub fn collect_fields(parsed: Vec<Option<FieldSpec>>) -> (r: Vec<FieldSpec>)
    ensures
        r@ == present_fields(parsed@),
{
    let ghost all = parsed@;
    let mut rest = parsed;
    let total = rest.len();
    let mut r: Vec<FieldSpec> = Vec::new();
    let mut taken: usize = 0;
    proof {
        assert(all.len() == total);
        assert(all.take(0) =~= Seq::<Option<FieldSpec>>::empty());
        assert(r@ =~= present_fields(all.take(0)));
    }
    while rest.len() > 0
        invariant
            all.len() == total,
            taken <= total,
            rest@ == all.skip(taken as int),
            r@ == present_fields(all.take(taken as int)),
        decreases rest.len(),
    {
        let next = rest.remove(0);
        proof {
            assert(all.take(taken + 1).drop_last() =~= all.take(taken as int));
            assert(all.take(taken + 1).last() == all[taken as int]);
            assert(all.skip(taken as int)[0] == all[taken as int]);
            assert(all.skip(taken as int).remove(0) =~= all.skip(taken + 1));
        }
        match next {
            Some(f) => {
                r.push(f);
            },
            None => {},
        }
        taken = taken + 1;
    }
    proof {
        assert(all.take(all.len() as int) =~= all);
        assert(all.skip(taken as int).len() == 0);
    }
    r
}

/// The full name a bare table name resolves to:
/// `{catalog}.{schema}.{table}`.
pub fn full_table_name(catalog: &String, schema: &String, table: &String) -> (r: String)
    ensures
        r@ == catalog@ + "."@ + schema@ + "."@ + table@,
{
    let mut r = catalog.clone();
    r.append(".");
    r.append(schema.as_str());
    r.append(".");
    r.append(table.as_str());
    r
}

} // verus!
