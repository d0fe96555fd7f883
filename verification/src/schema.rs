//! The migration set the application declares: one version-2 migration that
//! creates the three tables — `inventory`, `sales`, `users`, each guarded by
//! `IF NOT EXISTS` — and seeds the admin account only if no row with that
//! username exists yet.

use vstd::prelude::*;

use vstd::string::StringExecFns;

use crate::migration::mig_views;
use crate::migration::Migration;
use crate::migration::MigrationKind;
use crate::migration::MigrationModel;
use crate::migration::Statement;
use crate::migration::StatementModel;
use crate::store::Table;

verus! {

/// The declared target version.
pub const DECLARED_VERSION: u64 = 2;

/// Mathematical image of the declared migration set.
pub open spec fn declared_migrations_m() -> Seq<MigrationModel> {
    seq![
        MigrationModel {
            version: DECLARED_VERSION,
            description: "create_initial_tables"@,
            statements: seq![
                StatementModel::CreateTable(Table::Inventory),
                StatementModel::CreateTable(Table::Sales),
                StatementModel::CreateTable(Table::Users),
                StatementModel::SeedUser { username: "admin"@, password: "admin"@ },
            ],
            kind: MigrationKind::Up,
        },
    ]
}

/// Builds the declared migration set.
pub fn declared_migrations() -> (r: Vec<Migration>)
    ensures
        mig_views(r@) == declared_migrations_m(),
{
    let mut stmts: Vec<Statement> = Vec::new();
    stmts.push(Statement::CreateTable(Table::Inventory));
    stmts.push(Statement::CreateTable(Table::Sales));
    stmts.push(Statement::CreateTable(Table::Users));
    stmts.push(
        Statement::SeedUser {
            username: String::from_str("admin"),
            password: String::from_str("admin"),
        },
    );
    let mut r: Vec<Migration> = Vec::new();
    r.push(
        Migration {
            version: DECLARED_VERSION,
            description: String::from_str("create_initial_tables"),
            statements: stmts,
            kind: MigrationKind::Up,
        },
    );
    proof {
        assert(mig_views(r@)[0].statements =~= declared_migrations_m()[0].statements);
        assert(mig_views(r@)[0] =~= declared_migrations_m()[0]);
        assert(mig_views(r@) =~= declared_migrations_m());
    }
    r
}

} // verus!
