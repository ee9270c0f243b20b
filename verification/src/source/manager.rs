//! The sources that a node knows.

use std::collections::HashMap;
use std::sync::Arc;
use vstd::prelude::*;
use vstd::string::StringExecFns;

use crate::catalog::{ColumnDesc, ColumnId, DataType};
use crate::common::error::{fails, ErrorCode, ErrorView};
use crate::common::string_map::StringMap;
use crate::common::text::{decimal, decimal_text};

verus! {

broadcast use vstd::std_specs::hash::group_hash_axioms;

/// The number of a table or source.
#[derive(Clone, Copy, Debug, PartialEq, Eq, Structural)]
pub struct TableId {
    pub table_id: u32,
}

/// A table's number as `Debug` shows it.
pub open spec fn id_text(id: TableId) -> Seq<char> {
    "TableId { table_id: "@ + decimal(id.table_id as nat) + " }"@
}

/// Words, then a table's number.
fn with_id(words: &str, id: &TableId) -> (r: String)
    ensures
        r@ == words@ + id_text(*id),
{
    let mut m: String = words.to_owned();
    m.append("TableId { table_id: ");
    m.append(decimal_text(id.table_id as u64).as_str());
    m.append(" }");
    proof {
        assert(m@ =~= words@ + id_text(*id));
    }
    m
}

/// How the data of a source is written down.
#[derive(Clone, Copy, Debug, PartialEq, Eq, Structural)]
pub enum SourceFormat {
    Invalid,
    Json,
    Protobuf,
    DebeziumJson,
    Avro,
}

/// `SourceColumnDesc` is used to describe a column in the Source and is used as the column
/// counterpart in `StreamScan`
#[derive(Debug)]
pub struct SourceColumnDesc {
    pub name: String,
    pub data_type: DataType,
    pub column_id: ColumnId,
    pub skip_parse: bool,
}

/// The column of a source that describes a column of a table.
pub open spec fn describes_column(s: SourceColumnDesc, c: ColumnDesc) -> bool {
    &&& s.name == c.name
    &&& s.data_type == c.data_type
    &&& s.column_id == c.column_id
    &&& !s.skip_parse
}

impl SourceColumnDesc {
    /// The column of a source that describes a column of a table.
    pub fn from_column(c: &ColumnDesc) -> (r: SourceColumnDesc)
        ensures
            describes_column(r, *c),
    {
        SourceColumnDesc {
            name: c.name.clone(),
            data_type: c.data_type.copy(),
            column_id: c.column_id,
            skip_parse: false,
        }
    }

    /// A copy of the column.
    pub fn copy(&self) -> (r: SourceColumnDesc)
        ensures
            r == *self,
    {
        SourceColumnDesc {
            name: self.name.clone(),
            data_type: self.data_type.copy(),
            column_id: self.column_id,
            skip_parse: self.skip_parse,
        }
    }
}

/// Copies of columns.
fn copy_columns(columns: &Vec<SourceColumnDesc>) -> (r: Vec<SourceColumnDesc>)
    ensures
        r@ == columns@,
{
    let mut r: Vec<SourceColumnDesc> = Vec::new();
    let mut i: usize = 0;
    while i < columns.len()
        invariant
            i <= columns@.len(),
            r@ == columns@.subrange(0, i as int),
        decreases columns@.len() - i,
    {
        r.push(columns[i].copy());
        i = i + 1;
        proof {
            assert(r@ =~= columns@.subrange(0, i as int));
        }
    }
    proof {
        assert(columns@.subrange(0, i as int) =~= columns@);
    }
    r
}

/// Where a Kafka source reads from.
#[derive(Debug)]
pub struct HighLevelKafkaSourceConfig {
    pub bootstrap_servers: Vec<String>,
    pub topic: String,
    pub properties: StringMap<String>,
}

/// Where a source reads from; `R` is a reader. Of a connector it is what the attempt
/// to connect gave.
#[derive(Debug)]
pub enum SourceConfig<R> {
    Kafka(HighLevelKafkaSourceConfig),
    Connector(Result<R, String>),
}

/// A source; `P` is a parser and `R` a reader.
#[derive(Debug)]
pub enum SourceImpl<P, R> {
    HighLevelKafka { config: HighLevelKafkaSourceConfig, columns: Vec<SourceColumnDesc>, parser: P },
    Connector { parser: P, reader: R, columns: Vec<SourceColumnDesc> },
    TableV2 { descs: Vec<ColumnDesc> },
}

/// `SourceDesc` is used to describe a `Source`
#[derive(Debug)]
pub struct SourceDesc<P, R> {
    pub source: Arc<SourceImpl<P, R>>,
    pub format: SourceFormat,
    pub columns: Vec<SourceColumnDesc>,
    pub row_id_index: Option<usize>,
}

/// A source by its meaning.
pub struct DescView<P, R> {
    pub source: SourceImpl<P, R>,
    pub format: SourceFormat,
    pub columns: Seq<SourceColumnDesc>,
    pub row_id_index: Option<usize>,
}

impl<P, R> View for SourceDesc<P, R> {
    type V = DescView<P, R>;

    open spec fn view(&self) -> DescView<P, R> {
        DescView {
            source: *self.source,
            format: self.format,
            columns: self.columns@,
            row_id_index: self.row_id_index,
        }
    }
}

impl<P, R> SourceDesc<P, R> {
    /// A copy of the description; the source itself is shared.
    pub fn copy(&self) -> (r: Self)
        ensures
            r@ == self@,
    {
        SourceDesc {
            source: self.source.clone(),
            format: self.format,
            columns: copy_columns(&self.columns),
            row_id_index: self.row_id_index,
        }
    }
}

/// Sources by their numbers.
pub type Sources<P, R> = Map<u32, DescView<P, R>>;

/// The sources that a node knows.
#[derive(Debug)]
pub struct MemSourceManager<P, R> {
    sources: HashMap<u32, SourceDesc<P, R>>,
}

impl<P, R> View for MemSourceManager<P, R> {
    type V = Sources<P, R>;

    closed spec fn view(&self) -> Sources<P, R> {
        self.sources@.map_values(|d: SourceDesc<P, R>| d@)
    }
}

/// A source with a new number was added, and the others are as they were.
pub open spec fn is_added<P, R>(before: Sources<P, R>, after: Sources<P, R>, id: u32) -> bool {
    &&& !before.contains_key(id)
    &&& after.contains_key(id)
    &&& after.remove(id) == before
}

/// What a configured source is made of.
pub open spec fn is_configured<P, R>(
    d: DescView<P, R>,
    config: SourceConfig<R>,
    parser: P,
    format: SourceFormat,
    columns: Seq<SourceColumnDesc>,
    row_id_index: Option<usize>,
) -> bool {
    &&& d.format == format
    &&& d.columns == columns
    &&& d.row_id_index == row_id_index
    &&& match config {
        SourceConfig::Kafka(k) => {
            &&& d.source matches SourceImpl::HighLevelKafka { config: c, columns: cols, parser: p }
            &&& c == k
            &&& cols@ == columns
            &&& p == parser
        },
        SourceConfig::Connector(Ok(reader)) => {
            &&& d.source matches SourceImpl::Connector { parser: p, reader: rd, columns: cols }
            &&& p == parser
            &&& rd == reader
            &&& cols@ == columns
        },
        SourceConfig::Connector(Err(_)) => false,
    }
}

/// What the source of a table is made of.
pub open spec fn is_table_source<P, R>(d: DescView<P, R>, columns: Vec<ColumnDesc>) -> bool {
    &&& d.source == (SourceImpl::<P, R>::TableV2 { descs: columns })
    &&& d.format == SourceFormat::Invalid
    &&& d.row_id_index == Some(0usize)
    &&& d.columns.len() == columns@.len()
    &&& forall|i: int| 0 <= i < columns@.len() ==> describes_column(#[trigger] d.columns[i], columns@[i])
}

impl<P, R> MemSourceManager<P, R> {
    /// No sources.
    pub fn new() -> (r: Self)
        ensures
            r@ == Map::<u32, DescView<P, R>>::empty(),
    {
        let r = MemSourceManager { sources: HashMap::new() };
        proof {
            assert(r@ =~= Map::<u32, DescView<P, R>>::empty());
        }
        r
    }

    /// Adds a source that reads from elsewhere. Its number must be new.
    pub fn create_source(
        &mut self,
        source_id: &TableId,
        format: SourceFormat,
        parser: P,
        config: SourceConfig<R>,
        columns: Vec<SourceColumnDesc>,
        row_id_index: Option<usize>,
    ) -> (r: Result<(), ErrorCode>)
        ensures
            if config matches SourceConfig::Connector(Err(_)) {
                fails(r, ErrorView::InternalError(config->Connector_0->Err_0@)) && final(self)@ == old(self)@
            } else if old(self)@.contains_key(source_id.table_id) {
                fails(r, ErrorView::InternalError("Source id already exists: "@ + id_text(*source_id))) && final(self)@
                    == old(self)@
            } else {
                &&& r is Ok
                &&& is_added(old(self)@, final(self)@, source_id.table_id)
                &&& is_configured(
                    final(self)@[source_id.table_id],
                    config,
                    parser,
                    format,
                    columns@,
                    row_id_index,
                )
            },
    {
        let ghost before = self@;
        let source = match config {
            SourceConfig::Kafka(config) => SourceImpl::HighLevelKafka { config, columns: copy_columns(&columns), parser },
            SourceConfig::Connector(Ok(reader)) => SourceImpl::Connector { parser, reader, columns: copy_columns(&columns) },
            SourceConfig::Connector(Err(e)) => {
                return Err(ErrorCode::InternalError(e));
            },
        };
        let desc = SourceDesc { source: Arc::new(source), format, columns, row_id_index };
        if self.sources.contains_key(&source_id.table_id) {
            return Err(ErrorCode::InternalError(with_id("Source id already exists: ", source_id)));
        }
        let ghost d = desc@;
        self.sources.insert(source_id.table_id, desc);
        proof {
            assert(self@ =~= before.insert(source_id.table_id, d));
            assert(self@.remove(source_id.table_id) =~= before);
        }
        Ok(())
    }

    /// Adds the source of a table. Its number must be new. The first column holds row
    /// ids.
    pub fn create_table_source_v2(&mut self, table_id: &TableId, columns: Vec<ColumnDesc>) -> (r: Result<(), ErrorCode>)
        ensures
            if old(self)@.contains_key(table_id.table_id) {
                fails(r, ErrorView::InternalError("Source id already exists: "@ + id_text(*table_id))) && final(self)@
                    == old(self)@
            } else {
                &&& r is Ok
                &&& is_added(old(self)@, final(self)@, table_id.table_id)
                &&& is_table_source(final(self)@[table_id.table_id], columns)
            },
    {
        let ghost before = self@;
        if self.sources.contains_key(&table_id.table_id) {
            return Err(ErrorCode::InternalError(with_id("Source id already exists: ", table_id)));
        }
        let mut source_columns: Vec<SourceColumnDesc> = Vec::new();
        let mut i: usize = 0;
        while i < columns.len()
            invariant
                i <= columns@.len(),
                source_columns@.len() == i,
                forall|j: int| 0 <= j < i ==> describes_column(#[trigger] source_columns@[j], columns@[j]),
            decreases columns@.len() - i,
        {
            source_columns.push(SourceColumnDesc::from_column(&columns[i]));
            i = i + 1;
        }
        let desc = SourceDesc {
            source: Arc::new(SourceImpl::TableV2 { descs: columns }),
            columns: source_columns,
            format: SourceFormat::Invalid,
            row_id_index: Some(0),  // always use the first column as row_id
        };
        let ghost d = desc@;
        self.sources.insert(table_id.table_id, desc);
        proof {
            assert(self@ =~= before.insert(table_id.table_id, d));
            assert(self@.remove(table_id.table_id) =~= before);
        }
        Ok(())
    }

    /// The source with the given number.
    pub fn get_source(&self, table_id: &TableId) -> (r: Result<SourceDesc<P, R>, ErrorCode>)
        ensures
            if self@.contains_key(table_id.table_id) {
                r matches Ok(desc) && desc@ == self@[table_id.table_id]
            } else {
                fails(r, ErrorView::InternalError("Get source table id not exists: "@ + id_text(*table_id)))
            },
    {
        match self.sources.get(&table_id.table_id) {
            Some(desc) => Ok(desc.copy()),
            None => Err(ErrorCode::InternalError(with_id("Get source table id not exists: ", table_id))),
        }
    }

    /// Removes a source, which must be there.
    pub fn drop_source(&mut self, table_id: &TableId) -> (r: Result<(), ErrorCode>)
        ensures
            if old(self)@.contains_key(table_id.table_id) {
                r is Ok && final(self)@ == old(self)@.remove(table_id.table_id)
            } else {
                fails(r, ErrorView::InternalError("Source does not exist: "@ + id_text(*table_id))) && final(self)@
                    == old(self)@
            },
    {
        let ghost before = self@;
        if !self.sources.contains_key(&table_id.table_id) {
            return Err(ErrorCode::InternalError(with_id("Source does not exist: ", table_id)));
        }
        self.sources.remove(&table_id.table_id);
        proof {
            assert(self@ =~= before.remove(table_id.table_id));
        }
        Ok(())
    }

    /// Clear sources, this is used when failover happens.
    pub fn clear_sources(&mut self) -> (r: Result<(), ErrorCode>)
        ensures
            r is Ok,
            final(self)@ == Map::<u32, DescView<P, R>>::empty(),
    {
        self.sources.clear();
        proof {
            assert(self@ =~= Map::<u32, DescView<P, R>>::empty());
        }
        Ok(())
    }
}

impl<P, R> Default for MemSourceManager<P, R> {
    fn default() -> (r: Self)
        ensures
            r@ == Map::<u32, DescView<P, R>>::empty(),
    {
        MemSourceManager::new()
    }
}

/// Creating a source and dropping it again leaves the sources as they were.
pub proof fn law_drop_undoes_create<P, R>(before: Sources<P, R>, created: Sources<P, R>, dropped: Sources<P, R>, id: u32)
    requires
        is_added(before, created, id),
        dropped == created.remove(id),
    ensures
        dropped == before,
        !dropped.contains_key(id),
{
}

/// Creating a source leaves every other source as it was.
pub proof fn law_create_keeps_others<P, R>(before: Sources<P, R>, created: Sources<P, R>, id: u32, other: u32)
    requires
        is_added(before, created, id),
        other != id,
    ensures
        created.contains_key(other) == before.contains_key(other),
        before.contains_key(other) ==> created[other] == before[other],
{
    assert(created.remove(id).contains_key(other) == created.contains_key(other));
    if before.contains_key(other) {
        assert(created.remove(id)[other] == created[other]);
    }
}

/// The source of a table has its columns, under their names and ids and with their types, all of which
/// are parsed; the first of them holds the row ids.
pub proof fn law_table_source_has_its_columns<P, R>(d: DescView<P, R>, columns: Vec<ColumnDesc>, i: int)
    requires
        is_table_source(d, columns),
        0 <= i < columns@.len(),
    ensures
        d.columns.len() == columns@.len(),
        d.columns[i].name == columns@[i].name,
        d.columns[i].data_type == columns@[i].data_type,
        d.columns[i].column_id == columns@[i].column_id,
        !d.columns[i].skip_parse,
        d.row_id_index == Some(0usize),
        d.format == SourceFormat::Invalid,
        d.source matches SourceImpl::TableV2 { descs } && descs == columns,
{
    assert(describes_column(d.columns[i], columns@[i]));
}

/// A source that reads from elsewhere keeps its parser, its format, its columns and the position of its
/// row ids, and reads from where it was configured to.
pub proof fn law_configured_source_is_kept<P, R>(
    d: DescView<P, R>,
    config: SourceConfig<R>,
    parser: P,
    format: SourceFormat,
    columns: Seq<SourceColumnDesc>,
    row_id_index: Option<usize>,
)
    requires
        is_configured(d, config, parser, format, columns, row_id_index),
    ensures
        d.format == format,
        d.columns == columns,
        d.row_id_index == row_id_index,
        match d.source {
            SourceImpl::HighLevelKafka { config: c, columns: cols, parser: p } => config == SourceConfig::<R>::Kafka(c) && p
                == parser && cols@ == columns,
            SourceImpl::Connector { parser: p, reader, columns: cols } => config == SourceConfig::Connector(
                Ok::<R, String>(reader),
            ) && p == parser && cols@ == columns,
            SourceImpl::TableV2 { .. } => false,
        },
{
}

/// A table is named by its number.
pub proof fn law_table_is_named_by_number(id: TableId)
    ensures
        id_text(id) == "TableId { table_id: "@ + decimal(id.table_id as nat) + " }"@,
{
}

} // verus!
