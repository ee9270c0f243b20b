//! Creating and dropping what the catalog holds. Each request is a sequence of
//! actions; what an action gave decides which one follows.

use vstd::prelude::*;

use crate::common::error::ErrorCode;

verus! {

/// The number of a source or table.
pub type SourceId = u32;

/// The number of a table.
pub type TableId = u32;

/// The version of the catalog.
pub type CatalogVersion = u64;

/// A database.
#[derive(Debug)]
pub struct Database {
    pub id: u32,
    pub name: String,
}

/// A schema.
#[derive(Debug)]
pub struct SchemaInfo {
    pub id: u32,
    pub database_id: u32,
    pub name: String,
}

/// A source.
#[derive(Debug)]
pub struct Source {
    pub id: SourceId,
    pub name: String,
}

/// A materialized view.
#[derive(Debug)]
pub struct Table {
    pub id: TableId,
    pub name: String,
    /// The source that the view shows, if it belongs to one.
    pub associated_source_id: Option<SourceId>,
}

impl Source {
    /// A copy of the source.
    pub fn copy(&self) -> (r: Source)
        ensures
            r == *self,
    {
        Source { id: self.id, name: self.name.clone() }
    }
}

impl Table {
    /// A copy of the view.
    pub fn copy(&self) -> (r: Table)
        ensures
            r == *self,
    {
        Table { id: self.id, name: self.name.clone(), associated_source_id: self.associated_source_id }
    }
}

/// What a node of a streaming plan does.
#[derive(Clone, Copy, Debug, PartialEq, Eq, Structural)]
pub enum Operator {
    /// Reads the source with the given number.
    Source { table_ref_id: u32 },
    /// Anything else, by its number.
    Other(u64),
}

/// A node of a streaming plan.
#[derive(Debug)]
pub struct StreamNode {
    pub node: Operator,
    pub input: Vec<StreamNode>,
}

/// How many nodes of the plan read a source.
pub open spec fn source_count(node: StreamNode) -> nat
    decreases node, 1int, 0int,
{
    (if node.node is Source {
        1nat
    } else {
        0nat
    }) + inputs_source_count(node, node.input@.len() as int)
}

/// How many nodes below the first `n` inputs read a source.
pub open spec fn inputs_source_count(node: StreamNode, n: int) -> nat
    decreases node, 0int, n,
{
    if n <= 0 || n > node.input@.len() {
        0
    } else {
        inputs_source_count(node, n - 1) + source_count(node.input@[n - 1])
    }
}

/// `after` is `before` with the number of the source in each node that reads one.
pub open spec fn is_filled(before: StreamNode, after: StreamNode, source_id: SourceId) -> bool
    decreases before,
{
    &&& after.node == match before.node {
        Operator::Source { .. } => Operator::Source { table_ref_id: source_id },
        Operator::Other(n) => Operator::Other(n),
    }
    &&& after.input@.len() == before.input@.len()
    &&& forall|i: int|
        0 <= i < before.input@.len() ==> is_filled(#[trigger] before.input@[i], after.input@[i], source_id)
}

proof fn lemma_inputs_rise(node: StreamNode, i: int, n: int)
    requires
        0 <= i <= n <= node.input@.len(),
    ensures
        inputs_source_count(node, i) <= inputs_source_count(node, n),
    decreases n,
{
    if i < n {
        lemma_inputs_rise(node, i, n - 1);
    }
}

/// Fills in the number of the source wherever the plan reads one, and counts the
/// places.
pub fn fill_source_id(stream_node: StreamNode, source_id: SourceId) -> (r: (StreamNode, usize))
    requires
        source_count(stream_node) <= usize::MAX,
    ensures
        is_filled(stream_node, r.0, source_id),
        r.1 == source_count(stream_node),
    decreases stream_node,
{
    let ghost before = stream_node;
    let StreamNode { node, input } = stream_node;
    let ghost inputs = input@;
    let mut count: usize = 0;
    let node: Operator = match node {
        Operator::Source { .. } => {
            count = 1;
            Operator::Source { table_ref_id: source_id }
        },
        Operator::Other(n) => Operator::Other(n),
    };
    let ghost own = count as int;
    let mut filled: Vec<StreamNode> = Vec::new();
    for child in iter: input
        invariant
            iter.seq() == inputs,
            before == stream_node,
            inputs == before.input@,
            filled@.len() == iter.index(),
            own + inputs_source_count(before, inputs.len() as int) <= usize::MAX,
            0 <= own,
            count == own + inputs_source_count(before, iter.index()),
            forall|j: int| 0 <= j < filled@.len() ==> is_filled(inputs[j], #[trigger] filled@[j], source_id),
    {
        let ghost k = iter.index();
        proof {
            assert(child == inputs[k]);
            lemma_inputs_rise(before, k + 1, inputs.len() as int);
            assert(inputs_source_count(before, k + 1) == inputs_source_count(before, k) + source_count(inputs[k]));
            assert(decreases_to!(before => before.input@[k]));
        }
        let (node, n) = fill_source_id(child, source_id);
        count = count + n;
        filled.push(node);
    }
    (StreamNode { node, input: filled }, count)
}

/// Whether the plan reads a source, and whether it reads only one.
fn sources_read(plan: &StreamNode) -> (r: (bool, bool))
    ensures
        r.0 == (source_count(*plan) > 0),
        r.1 == (source_count(*plan) <= 1),
    decreases *plan,
{
    let mut some: bool = match plan.node {
        Operator::Source { .. } => true,
        Operator::Other(_) => false,
    };
    let mut few: bool = true;
    let ghost own: nat = if plan.node is Source {
        1nat
    } else {
        0nat
    };
    let mut i: usize = 0;
    while i < plan.input.len()
        invariant
            i <= plan.input@.len(),
            own <= 1,
            some == (own + inputs_source_count(*plan, i as int) > 0),
            few == (own + inputs_source_count(*plan, i as int) <= 1),
        decreases plan.input@.len() - i,
    {
        proof {
            assert(decreases_to!(*plan => plan.input@[i as int]));
        }
        let (child_some, child_few) = sources_read(&plan.input[i]);
        few = few && child_few && !(some && child_some);
        some = some || child_some;
        i = i + 1;
    }
    (some, few)
}

/// Whether the plan reads exactly one source.
pub fn reads_one_source(plan: &StreamNode) -> (r: bool)
    ensures
        r == (source_count(*plan) == 1),
{
    let (some, few) = sources_read(plan);
    some && few
}

/// Which numbers are counted together.
#[derive(Clone, Copy, Debug, PartialEq, Eq, Structural)]
pub enum IdCategory {
    Database,
    Schema,
    Table,
}

/// What has to be done next.
#[derive(Debug)]
pub enum Action {
    GenerateId(IdCategory),
    CreateDatabase(Database),
    DropDatabase(u32),
    CreateSchema(SchemaInfo),
    DropSchema(u32),
    /// Creates the source on all compute nodes.
    CreateSourceOnNodes(Source),
    CreateSourceInCatalog(Source),
    DropSourceInCatalog(SourceId),
    /// Drops the source on all compute nodes.
    DropSourceOnNodes(SourceId),
    /// Marks the view as being created, and counts the references to what it reads.
    StartCreateTable(Table),
    /// Creates the actors of the view.
    BuildStream(StreamNode, TableId),
    FinishCreateTable(Table),
    CancelCreateTable(Table),
    /// Drops the view in the catalog, where references to it are counted.
    DropTableInCatalog(TableId),
    /// Drops the actors of the view.
    StopStream(TableId),
}

/// What an action gave.
#[derive(Debug)]
pub enum Event {
    Id(u32),
    Version(CatalogVersion),
    Done,
    Failed(ErrorCode),
}

/// What follows the creation of a source.
#[derive(Debug)]
pub enum Follow {
    Respond,
    /// A view of the source, and its plan.
    Materialize(Table, StreamNode),
}

/// What a request waits for.
#[derive(Debug)]
pub enum Waiting {
    DatabaseId(Database),
    DatabaseVersion(u32),
    SchemaId(SchemaInfo),
    SchemaVersion(u32),
    DropVersion,
    SourceId(Source, Follow),
    SourceOnNodes(Source, Follow),
    SourceVersion(SourceId, Follow),
    ViewId { mview: Table, plan: StreamNode, source_id: Option<SourceId> },
    ViewStart { mview: Table, plan: StreamNode, id: TableId, source_id: Option<SourceId> },
    ViewBuild { mview: Table, id: TableId, source_id: Option<SourceId> },
    ViewVersion { id: TableId, source_id: Option<SourceId> },
    ViewCancel(ErrorCode),
    TableVersion { table_id: TableId, then: Option<SourceId> },
    StreamStop { version: CatalogVersion, then: Option<SourceId> },
    SourceDropVersion(SourceId),
    SourceDropOnNodes(CatalogVersion),
}

/// The answer to a request.
#[derive(Debug)]
pub enum Response {
    Created { id: u32, version: CatalogVersion },
    CreatedSourceAndView { source_id: SourceId, table_id: TableId, version: CatalogVersion },
    Dropped { version: CatalogVersion },
}

/// What follows an event.
#[derive(Debug)]
pub enum Step {
    Act(Waiting, Action),
    Respond(Response),
    Fail(ErrorCode),
}

/// What a request begins with.
pub type Begun = (Waiting, Action);

/// Creates a database.
pub fn create_database(db: Database) -> (r: Begun)
    ensures
        r == (Waiting::DatabaseId(db), Action::GenerateId(IdCategory::Database)),
{
    (Waiting::DatabaseId(db), Action::GenerateId(IdCategory::Database))
}

/// Drops a database.
pub fn drop_database(database_id: u32) -> (r: Begun)
    ensures
        r == (Waiting::DropVersion, Action::DropDatabase(database_id)),
{
    (Waiting::DropVersion, Action::DropDatabase(database_id))
}

/// Creates a schema.
pub fn create_schema(schema: SchemaInfo) -> (r: Begun)
    ensures
        r == (Waiting::SchemaId(schema), Action::GenerateId(IdCategory::Schema)),
{
    (Waiting::SchemaId(schema), Action::GenerateId(IdCategory::Schema))
}

/// Drops a schema.
pub fn drop_schema(schema_id: u32) -> (r: Begun)
    ensures
        r == (Waiting::DropVersion, Action::DropSchema(schema_id)),
{
    (Waiting::DropVersion, Action::DropSchema(schema_id))
}

/// Creates a source.
pub fn create_source(source: Source) -> (r: Begun)
    ensures
        r == (Waiting::SourceId(source, Follow::Respond), Action::GenerateId(IdCategory::Table)),
{
    (Waiting::SourceId(source, Follow::Respond), Action::GenerateId(IdCategory::Table))
}

/// Drops a source: first in the catalog, where references are counted.
pub fn drop_source(source_id: SourceId) -> (r: Begun)
    ensures
        r == (Waiting::SourceDropVersion(source_id), Action::DropSourceInCatalog(source_id)),
{
    (Waiting::SourceDropVersion(source_id), Action::DropSourceInCatalog(source_id))
}

/// Creates a materialized view.
pub fn create_materialized_view(mview: Table, plan: StreamNode) -> (r: Begun)
    ensures
        r == (Waiting::ViewId { mview, plan, source_id: None }, Action::GenerateId(IdCategory::Table)),
{
    (Waiting::ViewId { mview, plan, source_id: None }, Action::GenerateId(IdCategory::Table))
}

/// Drops a materialized view: first in the catalog, where references are counted.
pub fn drop_materialized_view(table_id: TableId) -> (r: Begun)
    ensures
        r == (Waiting::TableVersion { table_id, then: None }, Action::DropTableInCatalog(table_id)),
{
    (Waiting::TableVersion { table_id, then: None }, Action::DropTableInCatalog(table_id))
}

/// Creates a source and a view of it. The plan of the view reads one source.
pub fn create_materialized_source(source: Source, mview: Table, plan: StreamNode) -> (r: Begun)
    requires
        source_count(plan) == 1,
    ensures
        r == (
            Waiting::SourceId(source, Follow::Materialize(mview, plan)),
            Action::GenerateId(IdCategory::Table),
        ),
{
    (Waiting::SourceId(source, Follow::Materialize(mview, plan)), Action::GenerateId(IdCategory::Table))
}

/// Drops a view and then the source that it shows.
pub fn drop_materialized_source(source_id: SourceId, table_id: TableId) -> (r: Begun)
    ensures
        r == (
            Waiting::TableVersion { table_id, then: Some(source_id) },
            Action::DropTableInCatalog(table_id),
        ),
{
    (Waiting::TableVersion { table_id, then: Some(source_id) }, Action::DropTableInCatalog(table_id))
}

/// The plan of a view that is to follow reads one source.
pub open spec fn plan_ready(follow: Follow) -> bool {
    follow matches Follow::Materialize(_, plan) ==> source_count(plan) == 1
}

/// The event is one that the request can get.
pub open spec fn expects(waiting: Waiting, event: Event) -> bool {
    match event {
        Event::Failed(_) => true,
        Event::Id(_) => waiting is DatabaseId || waiting is SchemaId || waiting is SourceId || waiting is ViewId,
        Event::Version(_) => waiting is DatabaseVersion || waiting is SchemaVersion || waiting is DropVersion
            || waiting is SourceVersion || waiting is ViewVersion || waiting is TableVersion
            || waiting is SourceDropVersion,
        Event::Done => waiting is SourceOnNodes || waiting is ViewStart || waiting is ViewBuild || waiting is ViewCancel
            || waiting is StreamStop || waiting is SourceDropOnNodes,
    }
}

/// Whether the event is one that the request can get.
pub fn can_get(waiting: &Waiting, event: &Event) -> (r: bool)
    ensures
        r == expects(*waiting, *event),
{
    match event {
        Event::Failed(_) => true,
        Event::Id(_) => matches!(
            waiting,
            Waiting::DatabaseId(_) | Waiting::SchemaId(_) | Waiting::SourceId(_, _) | Waiting::ViewId { .. }
        ),
        Event::Version(_) => matches!(
            waiting,
            Waiting::DatabaseVersion(_)
                | Waiting::SchemaVersion(_)
                | Waiting::DropVersion
                | Waiting::SourceVersion(_, _)
                | Waiting::ViewVersion { .. }
                | Waiting::TableVersion { .. }
                | Waiting::SourceDropVersion(_)
        ),
        Event::Done => matches!(
            waiting,
            Waiting::SourceOnNodes(_, _)
                | Waiting::ViewStart { .. }
                | Waiting::ViewBuild { .. }
                | Waiting::ViewCancel(_)
                | Waiting::StreamStop { .. }
                | Waiting::SourceDropOnNodes(_)
        ),
    }
}

/// The request holds together.
pub open spec fn request_ok(waiting: Waiting) -> bool {
    match waiting {
        Waiting::SourceId(_, follow) => plan_ready(follow),
        Waiting::SourceOnNodes(_, follow) => plan_ready(follow),
        Waiting::SourceVersion(_, follow) => plan_ready(follow),
        _ => true,
    }
}

/// What follows when the source was created.
pub open spec fn source_created(id: SourceId, follow: Follow, version: CatalogVersion, step: Step) -> bool {
    match follow {
        Follow::Respond => step == Step::Respond(Response::Created { id, version }),
        Follow::Materialize(mview, plan) => {
            &&& step matches Step::Act(Waiting::ViewId { mview: m, plan: p, source_id }, action)
            &&& m == (Table { associated_source_id: Some(id), ..mview })
            &&& is_filled(plan, p, id)
            &&& source_id == Some(id)
            &&& action == Action::GenerateId(IdCategory::Table)
        },
    }
}

/// What follows an event that is no failure.
pub open spec fn goes_on(waiting: Waiting, event: Event, step: Step) -> bool {
    let id = event->Id_0;
    let version = event->Version_0;
    match waiting {
        Waiting::DatabaseId(db) => step == Step::Act(
            Waiting::DatabaseVersion(id),
            Action::CreateDatabase(Database { id, ..db }),
        ),
        Waiting::DatabaseVersion(db_id) => step == Step::Respond(Response::Created { id: db_id, version }),
        Waiting::SchemaId(schema) => step == Step::Act(
            Waiting::SchemaVersion(id),
            Action::CreateSchema(SchemaInfo { id, ..schema }),
        ),
        Waiting::SchemaVersion(schema_id) => step == Step::Respond(Response::Created { id: schema_id, version }),
        Waiting::DropVersion => step == Step::Respond(Response::Dropped { version }),
        Waiting::SourceId(source, follow) => step == Step::Act(
            Waiting::SourceOnNodes(Source { id, ..source }, follow),
            Action::CreateSourceOnNodes(Source { id, ..source }),
        ),
        Waiting::SourceOnNodes(source, follow) => step == Step::Act(
            Waiting::SourceVersion(source.id, follow),
            Action::CreateSourceInCatalog(source),
        ),
        Waiting::SourceVersion(source_id, follow) => source_created(source_id, follow, version, step),
        Waiting::ViewId { mview, plan, source_id } => step == Step::Act(
            Waiting::ViewStart { mview, plan, id, source_id },
            Action::StartCreateTable(mview),
        ),
        Waiting::ViewStart { mview, plan, id: view_id, source_id } => step == Step::Act(
            Waiting::ViewBuild { mview, id: view_id, source_id },
            Action::BuildStream(plan, view_id),
        ),
        Waiting::ViewBuild { mview, id: view_id, source_id } => step == Step::Act(
            Waiting::ViewVersion { id: view_id, source_id },
            Action::FinishCreateTable(Table { id: view_id, ..mview }),
        ),
        Waiting::ViewVersion { id: view_id, source_id } => step == Step::Respond(
            match source_id {
                Some(source_id) => Response::CreatedSourceAndView { source_id, table_id: view_id, version },
                None => Response::Created { id: view_id, version },
            },
        ),
        Waiting::ViewCancel(e) => step == Step::Fail(e),
        Waiting::TableVersion { table_id, then } => step == Step::Act(
            Waiting::StreamStop { version, then },
            Action::StopStream(table_id),
        ),
        Waiting::StreamStop { version: table_version, then } => step == match then {
            Some(source_id) => Step::Act(
                Waiting::SourceDropVersion(source_id),
                Action::DropSourceInCatalog(source_id),
            ),
            None => Step::Respond(Response::Dropped { version: table_version }),
        },
        Waiting::SourceDropVersion(source_id) => step == Step::Act(
            Waiting::SourceDropOnNodes(version),
            Action::DropSourceOnNodes(source_id),
        ),
        Waiting::SourceDropOnNodes(source_version) => step == Step::Respond(
            Response::Dropped { version: source_version },
        ),
    }
}

/// What follows an event. A failure ends the request, but for the failure to build a
/// view, whose creation is cancelled first.
pub open spec fn follows(waiting: Waiting, event: Event, step: Step) -> bool {
    match event {
        Event::Failed(e) => match waiting {
            Waiting::ViewBuild { mview, .. } => step == Step::Act(
                Waiting::ViewCancel(e),
                Action::CancelCreateTable(mview),
            ),
            _ => step == Step::Fail(e),
        },
        _ => goes_on(waiting, event, step),
    }
}

/// What follows when the source was created.
fn after_source(id: SourceId, follow: Follow, version: CatalogVersion) -> (r: Step)
    requires
        plan_ready(follow),
    ensures
        source_created(id, follow, version, r),
        r matches Step::Act(w, _) ==> request_ok(w),
{
    match follow {
        Follow::Respond => Step::Respond(Response::Created { id, version }),
        Follow::Materialize(mview, plan) => {
            let (plan, _count) = fill_source_id(plan, id);
            let mview = Table { id: mview.id, name: mview.name, associated_source_id: Some(id) };
            Step::Act(
                Waiting::ViewId { mview, plan, source_id: Some(id) },
                Action::GenerateId(IdCategory::Table),
            )
        },
    }
}

/// What follows a number.
fn after_id(waiting: Waiting, id: u32) -> (r: Step)
    requires
        expects(waiting, Event::Id(id)),
        request_ok(waiting),
    ensures
        goes_on(waiting, Event::Id(id), r),
        r matches Step::Act(w, _) ==> request_ok(w),
{
    match waiting {
        Waiting::DatabaseId(db) => Step::Act(
            Waiting::DatabaseVersion(id),
            Action::CreateDatabase(Database { id, name: db.name }),
        ),
        Waiting::SchemaId(schema) => Step::Act(
            Waiting::SchemaVersion(id),
            Action::CreateSchema(SchemaInfo { id, database_id: schema.database_id, name: schema.name }),
        ),
        Waiting::SourceId(source, follow) => {
            let source = Source { id, name: source.name };
            let sent = source.copy();
            Step::Act(Waiting::SourceOnNodes(source, follow), Action::CreateSourceOnNodes(sent))
        },
        Waiting::ViewId { mview, plan, source_id } => {
            let sent = mview.copy();
            Step::Act(Waiting::ViewStart { mview, plan, id, source_id }, Action::StartCreateTable(sent))
        },
        other => Step::Act(other, Action::GenerateId(IdCategory::Table)),
    }
}

/// What follows a version.
fn after_version(waiting: Waiting, version: CatalogVersion) -> (r: Step)
    requires
        expects(waiting, Event::Version(version)),
        request_ok(waiting),
    ensures
        goes_on(waiting, Event::Version(version), r),
        r matches Step::Act(w, _) ==> request_ok(w),
{
    match waiting {
        Waiting::DatabaseVersion(id) => Step::Respond(Response::Created { id, version }),
        Waiting::SchemaVersion(id) => Step::Respond(Response::Created { id, version }),
        Waiting::SourceVersion(id, follow) => after_source(id, follow, version),
        Waiting::ViewVersion { id, source_id } => match source_id {
            Some(source_id) => Step::Respond(Response::CreatedSourceAndView { source_id, table_id: id, version }),
            None => Step::Respond(Response::Created { id, version }),
        },
        Waiting::TableVersion { table_id, then } => Step::Act(
            Waiting::StreamStop { version, then },
            Action::StopStream(table_id),
        ),
        Waiting::SourceDropVersion(source_id) => Step::Act(
            Waiting::SourceDropOnNodes(version),
            Action::DropSourceOnNodes(source_id),
        ),
        _ => Step::Respond(Response::Dropped { version }),
    }
}

/// What follows an action that gave nothing.
fn after_done(waiting: Waiting) -> (r: Step)
    requires
        expects(waiting, Event::Done),
        request_ok(waiting),
    ensures
        goes_on(waiting, Event::Done, r),
        r matches Step::Act(w, _) ==> request_ok(w),
{
    match waiting {
        Waiting::SourceOnNodes(source, follow) => {
            Step::Act(Waiting::SourceVersion(source.id, follow), Action::CreateSourceInCatalog(source))
        },
        Waiting::ViewStart { mview, plan, id, source_id } => Step::Act(
            Waiting::ViewBuild { mview, id, source_id },
            Action::BuildStream(plan, id),
        ),
        Waiting::ViewBuild { mview, id, source_id } => {
            let mview = Table { id, name: mview.name, associated_source_id: mview.associated_source_id };
            Step::Act(Waiting::ViewVersion { id, source_id }, Action::FinishCreateTable(mview))
        },
        Waiting::ViewCancel(e) => Step::Fail(e),
        Waiting::StreamStop { version, then } => match then {
            Some(source_id) => Step::Act(
                Waiting::SourceDropVersion(source_id),
                Action::DropSourceInCatalog(source_id),
            ),
            None => Step::Respond(Response::Dropped { version }),
        },
        Waiting::SourceDropOnNodes(version) => Step::Respond(Response::Dropped { version }),
        other => Step::Act(other, Action::GenerateId(IdCategory::Table)),
    }
}

/// What follows an event.
pub fn next(waiting: Waiting, event: Event) -> (r: Step)
    requires
        expects(waiting, event),
        request_ok(waiting),
    ensures
        follows(waiting, event, r),
        r matches Step::Act(w, _) ==> request_ok(w),
{
    match event {
        Event::Failed(e) => match waiting {
            Waiting::ViewBuild { mview, .. } => Step::Act(Waiting::ViewCancel(e), Action::CancelCreateTable(mview)),
            _ => Step::Fail(e),
        },
        Event::Id(id) => after_id(waiting, id),
        Event::Version(version) => after_version(waiting, version),
        Event::Done => after_done(waiting),
    }
}

/// A view enters the catalog only if its actors were created, and under the number
/// that was generated for it.
pub proof fn law_view_enters_catalog_after_build(waiting: Waiting, event: Event, step: Step)
    requires
        expects(waiting, event),
        follows(waiting, event, step),
        step matches Step::Act(_, Action::FinishCreateTable(_)),
    ensures
        event is Done,
        waiting matches Waiting::ViewBuild { mview, id, source_id } && step == Step::Act(
            Waiting::ViewVersion { id, source_id },
            Action::FinishCreateTable(Table { id, ..mview }),
        ),
{
}

/// A view whose actors could not be created is cancelled, and the request then fails
/// with the error of the creation.
pub proof fn law_failed_build_is_cancelled(mview: Table, id: TableId, source_id: Option<SourceId>, e: ErrorCode, first: Step, second: Step)
    requires
        follows(Waiting::ViewBuild { mview, id, source_id }, Event::Failed(e), first),
        follows(Waiting::ViewCancel(e), Event::Done, second),
    ensures
        first == Step::Act(Waiting::ViewCancel(e), Action::CancelCreateTable(mview)),
        second == Step::Fail(e),
{
}

/// A request is cancelled only because a build failed.
pub proof fn law_cancel_only_after_failed_build(waiting: Waiting, event: Event, step: Step)
    requires
        expects(waiting, event),
        follows(waiting, event, step),
        step matches Step::Act(_, Action::CancelCreateTable(_)),
    ensures
        waiting is ViewBuild,
        event is Failed,
{
}

/// Whatever is dropped is dropped in the catalog, where references are counted, before
/// it is dropped on the nodes.
pub proof fn law_catalog_drops_first(waiting: Waiting, event: Event, step: Step)
    requires
        expects(waiting, event),
        follows(waiting, event, step),
    ensures
        step matches Step::Act(_, Action::DropSourceOnNodes(id)) ==> event is Version && waiting
            == Waiting::SourceDropVersion(id),
        step matches Step::Act(_, Action::StopStream(id)) ==> event is Version && waiting is TableVersion,
{
}

/// Filling in a source's number keeps the number of places that read a source.
pub proof fn law_fill_keeps_sources(before: StreamNode, after: StreamNode, source_id: SourceId)
    requires
        is_filled(before, after, source_id),
    ensures
        source_count(after) == source_count(before),
    decreases before, 1int, 0int,
{
    lemma_fill_inputs(before, after, source_id, before.input@.len() as int);
}

proof fn lemma_fill_inputs(before: StreamNode, after: StreamNode, source_id: SourceId, n: int)
    requires
        is_filled(before, after, source_id),
        0 <= n <= before.input@.len(),
    ensures
        inputs_source_count(after, n) == inputs_source_count(before, n),
    decreases before, 0int, n,
{
    if n > 0 {
        lemma_fill_inputs(before, after, source_id, n - 1);
        assert(is_filled(before.input@[n - 1], after.input@[n - 1], source_id));
        law_fill_keeps_sources(before.input@[n - 1], after.input@[n - 1], source_id);
    }
}

/// What is created gets the number that was generated for it, and keeps everything else.
pub proof fn law_created_under_generated_id(waiting: Waiting, id: u32, step: Step)
    requires
        expects(waiting, Event::Id(id)),
        follows(waiting, Event::Id(id), step),
    ensures
        waiting matches Waiting::DatabaseId(db) ==> (step matches Step::Act(_, Action::CreateDatabase(new)) && new.id == id
            && new.name == db.name),
        waiting matches Waiting::SchemaId(schema) ==> (step matches Step::Act(_, Action::CreateSchema(new)) && new.id == id
            && new.name == schema.name && new.database_id == schema.database_id),
        waiting matches Waiting::SourceId(source, _) ==> (step matches Step::Act(_, Action::CreateSourceOnNodes(new)) && new.id
            == id && new.name == source.name),
        waiting matches Waiting::ViewId { mview, .. } ==> (step matches Step::Act(
            Waiting::ViewStart { id: kept, .. },
            Action::StartCreateTable(new),
        ) && kept == id && new == mview),
{
}

/// A source enters the catalog only after it was created on the nodes, and it is the same one.
pub proof fn law_source_enters_catalog_after_nodes(waiting: Waiting, event: Event, step: Step)
    requires
        expects(waiting, event),
        follows(waiting, event, step),
        step matches Step::Act(_, Action::CreateSourceInCatalog(_)),
    ensures
        event is Done,
        waiting matches Waiting::SourceOnNodes(source, follow) && step == Step::Act(
            Waiting::SourceVersion(source.id, follow),
            Action::CreateSourceInCatalog(source),
        ),
{
}

/// An answer names what was created, and carries the version that the last change of the catalog gave.
pub proof fn law_answers_carry_the_version(waiting: Waiting, event: Event, step: Step)
    requires
        expects(waiting, event),
        follows(waiting, event, step),
    ensures
        step matches Step::Respond(Response::Created { id, version }) ==> event == Event::Version(version) && {
            ||| waiting == Waiting::DatabaseVersion(id)
            ||| waiting == Waiting::SchemaVersion(id)
            ||| waiting matches Waiting::SourceVersion(source_id, Follow::Respond) && source_id == id
            ||| waiting matches Waiting::ViewVersion { id: view_id, source_id } && view_id == id && source_id is None
        },
        step matches Step::Respond(Response::CreatedSourceAndView { source_id, table_id, version }) ==> event
            == Event::Version(version) && waiting == (Waiting::ViewVersion { id: table_id, source_id: Some(source_id) }),
        step matches Step::Respond(Response::Dropped { version }) ==> {
            ||| waiting is DropVersion && event == Event::Version(version)
            ||| waiting matches Waiting::StreamStop { version: v, then } && v == version && then is None
            ||| waiting matches Waiting::SourceDropOnNodes(v) && v == version
        },
{
}

/// Every failure but that of a build ends the request with its error; nothing else does but the end of
/// a cancelled creation.
pub proof fn law_failures_end_requests(waiting: Waiting, event: Event, step: Step)
    requires
        expects(waiting, event),
        follows(waiting, event, step),
    ensures
        !(waiting is ViewBuild) ==> (event matches Event::Failed(e) ==> step == Step::Fail(e)),
        step matches Step::Fail(e) ==> event == Event::Failed(e) || waiting == Waiting::ViewCancel(e),
{
}

/// The view of a source is created after the source, with a plan in which every node that reads a source
/// reads this one.
pub proof fn law_view_reads_its_source(id: SourceId, mview: Table, plan: StreamNode, version: CatalogVersion, step: Step)
    requires
        follows(
            Waiting::SourceVersion(id, Follow::Materialize(mview, plan)),
            Event::Version(version),
            step,
        ),
    ensures
        step matches Step::Act(Waiting::ViewId { mview: new, plan: filled, source_id }, _) && new.associated_source_id
            == Some(id) && new.name == mview.name && source_id == Some(id) && (plan.node is Source ==> filled.node == (
        Operator::Source { table_ref_id: id })) && (plan.node is Other ==> filled.node == plan.node)
            && filled.input@.len() == plan.input@.len(),
{
}

/// Below the root of a plan, too, the number is filled in wherever a source is read, and nothing else
/// changes.
pub proof fn law_fill_reaches_inputs(before: StreamNode, after: StreamNode, source_id: SourceId, i: int)
    requires
        is_filled(before, after, source_id),
        0 <= i < before.input@.len(),
    ensures
        is_filled(before.input@[i], after.input@[i], source_id),
        before.input@[i].node is Source ==> after.input@[i].node == (Operator::Source { table_ref_id: source_id }),
        before.input@[i].node is Other ==> after.input@[i].node == before.input@[i].node,
{
}

} // verus!
