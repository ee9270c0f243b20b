//! Columns in the catalog.

use std::sync::Arc;
use vstd::prelude::*;

use crate::catalog::{ColumnDesc, ColumnId, DataType};

verus! {

/// A column of a table, with the columns within it.
#[derive(Debug)]
pub struct ColumnCatalog {
    pub column_desc: ColumnDesc,
    pub is_hidden: bool,
    pub catalogs: Vec<ColumnCatalog>,
    pub struct_type_name: String,
}

/// A column as it is stored.
#[derive(Debug)]
pub struct ProstColumnCatalog {
    pub column_desc: Option<ColumnDesc>,
    pub is_hidden: bool,
    pub catalogs: Vec<ProstColumnCatalog>,
    pub struct_type_name: String,
}

/// The descriptions of a column and of all columns within it.
pub open spec fn all_descs(c: ColumnCatalog) -> Seq<ColumnDesc>
    decreases c, 0int,
{
    seq![c.column_desc] + descs_within(c.catalogs@, c.catalogs@.len() as int)
}

/// The descriptions of the first `n` columns and of all columns within them.
pub open spec fn descs_within(list: Seq<ColumnCatalog>, n: int) -> Seq<ColumnDesc>
    decreases list, n,
{
    if n <= 0 || n > list.len() {
        Seq::empty()
    } else {
        descs_within(list, n - 1) + all_descs(list[n - 1])
    }
}

/// The types of columns.
pub open spec fn types_within(list: Seq<ColumnCatalog>) -> Seq<DataType> {
    Seq::new(list.len(), |i: int| list[i].column_desc.data_type)
}

/// The stored column has a description, and so have the columns within it.
pub open spec fn has_descs(p: ProstColumnCatalog) -> bool
    decreases p,
{
    &&& p.column_desc is Some
    &&& p.column_desc->0.data_type is Struct ==> forall|i: int|
        0 <= i < p.catalogs@.len() ==> has_descs(#[trigger] p.catalogs@[i])
}

/// `c` is the column that `p` stores. The type of a struct is made up anew from
/// the columns within it.
pub open spec fn stored_as(p: ProstColumnCatalog, c: ColumnCatalog) -> bool
    decreases p,
{
    let desc = p.column_desc->0;
    &&& c.is_hidden == p.is_hidden
    &&& c.struct_type_name == p.struct_type_name
    &&& c.column_desc.name == desc.name
    &&& c.column_desc.column_id == desc.column_id
    &&& c.column_desc.field_descs == desc.field_descs
    &&& c.column_desc.struct_type_name == desc.struct_type_name
    &&& if desc.data_type is Struct {
        &&& c.catalogs@.len() == p.catalogs@.len()
        &&& forall|i: int| 0 <= i < p.catalogs@.len() ==> stored_as(#[trigger] p.catalogs@[i], c.catalogs@[i])
        &&& c.column_desc.data_type matches DataType::Struct { fields } && fields@ == types_within(c.catalogs@)
    } else {
        c.catalogs@.len() == 0 && c.column_desc.data_type == desc.data_type
    }
}

impl ColumnCatalog {
    /// Get the column catalog's is hidden.
    pub fn is_hidden(&self) -> (r: bool)
        ensures
            r == self.is_hidden,
    {
        self.is_hidden
    }

    /// Get a reference to the column desc's data type.
    pub fn data_type(&self) -> (r: &DataType)
        ensures
            *r == self.column_desc.data_type,
    {
        &self.column_desc.data_type
    }

    /// Get the column desc's column id.
    pub fn column_id(&self) -> (r: ColumnId)
        ensures
            r == self.column_desc.column_id,
    {
        self.column_desc.column_id
    }

    /// Get a reference to the column desc's name.
    pub fn name(&self) -> (r: &str)
        ensures
            r@ == self.column_desc.name@,
    {
        self.column_desc.name.as_str()
    }

    /// Get all column descs by recursion
    pub fn get_column_descs(&self) -> (r: Vec<ColumnDesc>)
        ensures
            r@ == all_descs(*self),
        decreases *self,
    {
        let mut descs: Vec<ColumnDesc> = Vec::new();
        descs.push(self.column_desc.copy());
        let mut i: usize = 0;
        proof {
            assert(descs@ =~= seq![self.column_desc] + descs_within(self.catalogs@, 0));
        }
        while i < self.catalogs.len()
            invariant
                i <= self.catalogs@.len(),
                descs@ == seq![self.column_desc] + descs_within(self.catalogs@, i as int),
            decreases self.catalogs@.len() - i,
        {
            proof {
                assert(decreases_to!(*self => self.catalogs@[i as int]));
            }
            let mut more = self.catalogs[i].get_column_descs();
            descs.append(&mut more);
            i = i + 1;
            proof {
                assert(descs@ =~= seq![self.column_desc] + descs_within(self.catalogs@, i as int));
            }
        }
        descs
    }

    /// The column that is stored. If the DataType is struct, the column_catalog need to rebuild
    /// DataType Struct fields according to its catalogs
    pub fn from_prost(prost: &ProstColumnCatalog) -> (r: ColumnCatalog)
        requires
            has_descs(*prost),
        ensures
            stored_as(*prost, r),
        decreases *prost,
    {
        let mut column_desc = match &prost.column_desc {
            Some(desc) => desc.copy(),
            None => ColumnDesc::unnamed(0, DataType::Boolean),
        };
        let mut catalogs: Vec<ColumnCatalog> = Vec::new();
        if let DataType::Struct { .. } = column_desc.data_type {
            let mut fields: Vec<DataType> = Vec::new();
            let mut i: usize = 0;
            while i < prost.catalogs.len()
                invariant
                    i <= prost.catalogs@.len(),
                    has_descs(*prost),
                    prost.column_desc->0.data_type is Struct,
                    catalogs@.len() == i,
                    fields@.len() == i,
                    forall|j: int| 0 <= j < i ==> stored_as(#[trigger] prost.catalogs@[j], catalogs@[j]),
                    forall|j: int| 0 <= j < i ==> #[trigger] fields@[j] == catalogs@[j].column_desc.data_type,
                decreases prost.catalogs@.len() - i,
            {
                proof {
                    assert(decreases_to!(*prost => prost.catalogs@[i as int]));
                    assert(has_descs(prost.catalogs@[i as int]));
                }
                let catalog = ColumnCatalog::from_prost(&prost.catalogs[i]);
                fields.push(catalog.data_type().copy());
                catalogs.push(catalog);
                i = i + 1;
            }
            proof {
                assert(fields@ =~= types_within(catalogs@));
            }
            column_desc.data_type = DataType::Struct { fields: Arc::new(fields) };
        }
        ColumnCatalog {
            column_desc,
            is_hidden: prost.is_hidden,
            catalogs,
            struct_type_name: prost.struct_type_name.clone(),
        }
    }
}

/// A column without columns within it is stored as it is.
pub proof fn law_plain_column_kept(p: ProstColumnCatalog, c: ColumnCatalog)
    requires
        stored_as(p, c),
        p.column_desc is Some,
        !(p.column_desc->0.data_type is Struct),
    ensures
        c.column_desc == p.column_desc->0,
        all_descs(c) == seq![p.column_desc->0],
{
    assert(all_descs(c) =~= seq![c.column_desc]);
}

/// A struct is stored with the columns within it: they come back in their order, under their names
/// and ids, and the type of the struct has their types.
pub proof fn law_struct_keeps_columns_within(p: ProstColumnCatalog, c: ColumnCatalog, i: int)
    requires
        has_descs(p),
        stored_as(p, c),
        p.column_desc->0.data_type is Struct,
        0 <= i < p.catalogs@.len(),
    ensures
        c.is_hidden == p.is_hidden,
        c.column_desc.name == p.column_desc->0.name,
        c.column_desc.column_id == p.column_desc->0.column_id,
        c.catalogs@.len() == p.catalogs@.len(),
        c.catalogs@[i].is_hidden == p.catalogs@[i].is_hidden,
        c.catalogs@[i].column_desc.name == p.catalogs@[i].column_desc->0.name,
        c.catalogs@[i].column_desc.column_id == p.catalogs@[i].column_desc->0.column_id,
        !(p.catalogs@[i].column_desc->0.data_type is Struct) ==> c.catalogs@[i].column_desc.data_type
            == p.catalogs@[i].column_desc->0.data_type,
        c.column_desc.data_type matches DataType::Struct { fields } && fields@.len() == p.catalogs@.len() && fields@[i]
            == c.catalogs@[i].column_desc.data_type,
{
    assert(stored_as(p.catalogs@[i], c.catalogs@[i]));
}

proof fn lemma_descs_within(list: Seq<ColumnCatalog>, n: int, i: int)
    requires
        0 <= i < n <= list.len(),
    ensures
        ({
            let at = descs_within(list, i).len() as int;
            &&& at + all_descs(list[i]).len() <= descs_within(list, n).len()
            &&& descs_within(list, n).subrange(at, at + all_descs(list[i]).len()) == all_descs(list[i])
        }),
    decreases n,
{
    let at = descs_within(list, i).len() as int;
    let len = all_descs(list[i]).len();
    assert(descs_within(list, n) == descs_within(list, n - 1) + all_descs(list[n - 1]));
    if i < n - 1 {
        lemma_descs_within(list, n - 1, i);
        assert(descs_within(list, n).subrange(at, at + len) =~= descs_within(list, n - 1).subrange(at, at + len));
    } else {
        assert(descs_within(list, n).subrange(at, at + len) =~= all_descs(list[i]));
    }
}

/// The descriptions of a column start with its own; those of the columns within it follow without
/// a gap, each column's together.
pub proof fn law_own_description_comes_first(c: ColumnCatalog, i: int)
    requires
        0 <= i < c.catalogs@.len(),
    ensures
        all_descs(c)[0] == c.column_desc,
        ({
            let at = 1 + descs_within(c.catalogs@, i).len() as int;
            let end = at + all_descs(c.catalogs@[i]).len();
            &&& end <= all_descs(c).len()
            &&& all_descs(c).subrange(at, end) == all_descs(c.catalogs@[i])
            &&& all_descs(c)[at] == c.catalogs@[i].column_desc
            &&& i == 0 ==> at == 1
            &&& i + 1 == c.catalogs@.len() ==> end == all_descs(c).len()
        }),
{
    let n = c.catalogs@.len() as int;
    let within = descs_within(c.catalogs@, n);
    let at = 1 + descs_within(c.catalogs@, i).len() as int;
    let len = all_descs(c.catalogs@[i]).len();
    lemma_descs_within(c.catalogs@, n, i);
    assert(all_descs(c) == seq![c.column_desc] + within);
    assert(all_descs(c).subrange(at, at + len) =~= within.subrange(at - 1, at - 1 + len));
    assert(all_descs(c.catalogs@[i])[0] == c.catalogs@[i].column_desc);
    assert(all_descs(c).subrange(at, at + len)[0] == all_descs(c)[at]);
}

} // verus!
