//! Schema versions of the state database and the steps between them.

use vstd::prelude::*;

verus! {

/// A schema version.
#[derive(Debug, Clone, Copy, PartialEq, Eq, PartialOrd, Ord, Structural)]
pub struct SchemaVersion(pub i32);

impl SchemaVersion {
    /// The current schema version.
    pub fn current() -> (r: SchemaVersion)
        ensures
            r == SchemaVersion(5),
    {
        SchemaVersion(5)
    }
}

/// One step of bringing a database up to date.
#[derive(Debug, Clone, Copy, PartialEq, Eq, Structural)]
pub enum MigrationStep {
    /// The initial tables.
    Init,
    /// The management plane.
    ManagePlane,
    /// Signed capability tokens.
    CapabilityTokens,
    /// The receive quarantine.
    DataReceiveQuarantine,
    /// The explicit-control rows.
    DataExplicitControl,
}

/// Every step, in the order of the versions they lead to.
pub open spec fn all_steps() -> Seq<MigrationStep> {
    seq![
        MigrationStep::Init,
        MigrationStep::ManagePlane,
        MigrationStep::CapabilityTokens,
        MigrationStep::DataReceiveQuarantine,
        MigrationStep::DataExplicitControl,
    ]
}

/// How many of the steps a database at this version has behind it.
pub open spec fn steps_behind(from: SchemaVersion) -> int {
    if from.0 <= 0 {
        0
    } else if from.0 >= 5 {
        5
    } else {
        from.0 as int
    }
}

/// The steps that bring a database at version `from` up to date, in order: the
/// ones it does not have behind it.
pub fn migrate(from: SchemaVersion) -> (r: Vec<MigrationStep>)
    ensures
        r@ == all_steps().skip(steps_behind(from)),
{
    let mut steps: Vec<MigrationStep> = Vec::new();
    if from.0 < 1 {
        steps.push(MigrationStep::Init);
    }
    if from.0 < 2 {
        steps.push(MigrationStep::ManagePlane);
    }
    if from.0 < 3 {
        steps.push(MigrationStep::CapabilityTokens);
    }
    if from.0 < 4 {
        steps.push(MigrationStep::DataReceiveQuarantine);
    }
    if from.0 < 5 {
        steps.push(MigrationStep::DataExplicitControl);
    }
    assert(steps@ =~= all_steps().skip(steps_behind(from)));
    steps
}

/// Whether a database at version `from` is to be migrated at all.
pub fn needs_migration(from: SchemaVersion) -> (r: bool)
    ensures
        r <==> all_steps().skip(steps_behind(from)).len() > 0,
{
    from.0 < SchemaVersion::current().0
}

/// Each version brought one step: the tables first, then the management plane, the
/// tokens, the quarantine and the explicit control. A database at a version lacks
/// exactly the steps of the later ones.
pub proof fn law_each_version_brought_one_step(v: i32)
    requires
        0 <= v <= 5,
    ensures
        all_steps().len() == 5,
        all_steps().skip(steps_behind(SchemaVersion(v))).len() == 5 - v,
        v == 0 ==> all_steps().skip(steps_behind(SchemaVersion(v)))[0] is Init,
        v == 1 ==> all_steps().skip(steps_behind(SchemaVersion(v)))[0] is ManagePlane,
        v == 2 ==> all_steps().skip(steps_behind(SchemaVersion(v)))[0] is CapabilityTokens,
        v == 3 ==> all_steps().skip(steps_behind(SchemaVersion(v)))[0] is DataReceiveQuarantine,
        v == 4 ==> all_steps().skip(steps_behind(SchemaVersion(v)))[0] is DataExplicitControl,
{
}

/// A database that went through the steps for its version has every step behind
/// it, each once.
pub proof fn law_migration_completes_the_schema(from: SchemaVersion)
    ensures
        all_steps().take(steps_behind(from)) + all_steps().skip(steps_behind(from)) == all_steps(),
        steps_behind(SchemaVersion(5)) == all_steps().len(),
{
    assert(all_steps().take(steps_behind(from)) + all_steps().skip(steps_behind(from))
        =~= all_steps());
}

} // verus!
