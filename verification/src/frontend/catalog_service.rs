//! Creating databases and schemas, and waiting until the local catalog shows them.

use vstd::prelude::*;

use crate::common::error::{fails, ErrorCode, ErrorView};

verus! {

/// The version of a catalog.
pub type CatalogVersion = u64;

/// A request for a new database.
#[derive(Debug)]
pub struct ProstDatabase {
    pub id: u32,
    pub name: String,
}

/// A request for a new schema.
#[derive(Debug)]
pub struct ProstSchema {
    pub id: u32,
    pub database_id: u32,
    pub name: String,
}

/// What the writer does next.
#[derive(Debug)]
pub enum WriterStep {
    /// Wait until the local catalog changes.
    AwaitChange,
    /// The local catalog is recent enough.
    Done,
}

/// The request that creates a database; the identifier is for the server to give.
pub fn create_database(db_name: &str) -> (r: ProstDatabase)
    ensures
        r.id == 0,
        r.name@ == db_name@,
{
    ProstDatabase { name: db_name.to_owned(), id: 0 }
}

/// The request that creates a schema in a database; the identifier is for the
/// server to give.
pub fn create_schema(db_id: u32, schema_name: &str) -> (r: ProstSchema)
    ensures
        r.id == 0,
        r.name@ == schema_name@,
        r.database_id == db_id,
{
    ProstSchema { id: 0, name: schema_name.to_owned(), database_id: db_id }
}

/// Whether the local catalog, at the version given, has caught up with the version
/// that the server answered.
pub fn wait_version(local: CatalogVersion, version: CatalogVersion) -> (r: WriterStep)
    ensures
        r is AwaitChange <==> local < version,
        r is Done <==> local >= version,
{
    if local < version {
        WriterStep::AwaitChange
    } else {
        WriterStep::Done
    }
}

/// What the writer does when the wait for a change is over: it looks again, or gives
/// up with the error that the wait ended with.
pub fn after_wait(
    changed: Result<CatalogVersion, String>,
    version: CatalogVersion,
) -> (r: Result<WriterStep, ErrorCode>)
    ensures
        match changed {
            Ok(local) => r matches Ok(step) && (step is Done <==> local >= version),
            Err(text) => fails(r, ErrorView::InternalError(text@)),
        },
{
    match changed {
        Ok(local) => Ok(wait_version(local, version)),
        Err(text) => Err(ErrorCode::InternalError(text)),
    }
}

} // verus!
