//! Migrations: versioned, named scripts of schema/data statements, executed
//! at most once each by the bootstrapper.

use vstd::prelude::*;

use crate::store::create_table_m;
use crate::store::insert_inventory_m;
use crate::store::insert_sale_m;
use crate::store::seed_user_m;
use crate::store::Dup;
use crate::store::InventoryItem;
use crate::store::InventoryItemModel;
use crate::store::SaleRecord;
use crate::store::SaleRecordModel;
use crate::store::StoreError;
use crate::store::StoreModel;
use crate::store::Table;

verus! {

/// One statement of a migration script.
pub enum Statement {
    /// `CREATE TABLE IF NOT EXISTS`: idempotent table creation.
    CreateTable(Table),
    /// The guarded seed insert: a users row added only if the username is
    /// absent.
    SeedUser { username: String, password: String },
    /// An unconditional inventory insert.
    InsertInventory(InventoryItem),
    /// An unconditional sales insert, subject to the UNIQUE phone constraint.
    InsertSale(SaleRecord),
}

/// Mathematical image of a statement.
pub enum StatementModel {
    CreateTable(Table),
    SeedUser { username: Seq<char>, password: Seq<char> },
    InsertInventory(InventoryItemModel),
    InsertSale(SaleRecordModel),
}

impl View for Statement {
    type V = StatementModel;

    open spec fn view(&self) -> StatementModel {
        match self {
            Statement::CreateTable(t) => StatementModel::CreateTable(*t),
            Statement::SeedUser { username, password } => StatementModel::SeedUser {
                username: username@,
                password: password@,
            },
            Statement::InsertInventory(item) => StatementModel::InsertInventory(item@),
            Statement::InsertSale(sale) => StatementModel::InsertSale(sale@),
        }
    }
}

impl Dup for Statement {
    fn dup(&self) -> (r: Statement) {
        match self {
            Statement::CreateTable(t) => Statement::CreateTable(*t),
            Statement::SeedUser { username, password } => Statement::SeedUser {
                username: username.clone(),
                password: password.clone(),
            },
            Statement::InsertInventory(item) => Statement::InsertInventory(item.dup()),
            Statement::InsertSale(sale) => Statement::InsertSale(sale.dup()),
        }
    }
}

/// Whether a migration's script is meant to move the schema forward or back.
/// Carried as declared; the bootstrapper applies each supplied migration's
/// script once, whatever its direction.
#[derive(Clone, Copy, PartialEq, Eq, Structural, Debug)]
pub enum MigrationKind {
    Up,
    Down,
}

/// A versioned, named unit of schema/data change.
pub struct Migration {
    pub version: u64,
    pub description: String,
    pub statements: Vec<Statement>,
    pub kind: MigrationKind,
}

/// Mathematical image of a migration.
#[verifier::ext_equal]
pub struct MigrationModel {
    pub version: u64,
    pub description: Seq<char>,
    pub statements: Seq<StatementModel>,
    pub kind: MigrationKind,
}

impl View for Migration {
    type V = MigrationModel;

    open spec fn view(&self) -> MigrationModel {
        MigrationModel {
            version: self.version,
            description: self.description@,
            statements: self.statements@.map_values(|st: Statement| st@),
            kind: self.kind,
        }
    }
}

impl Dup for Migration {
    fn dup(&self) -> (r: Migration) {
        let r = Migration {
            version: self.version,
            description: self.description.clone(),
            statements: crate::store::dup_vec(&self.statements),
            kind: self.kind,
        };
        proof {
            assert(r@ =~= self@);
        }
        r
    }
}

/// The views of a sequence of statements.
pub open spec fn stmt_views(stmts: Seq<Statement>) -> Seq<StatementModel> {
    stmts.map_values(|st: Statement| st@)
}

/// The views of a sequence of migrations.
pub open spec fn mig_views(migs: Seq<Migration>) -> Seq<MigrationModel> {
    migs.map_values(|m: Migration| m@)
}

/// Effect of one statement on the store.
pub open spec fn apply_statement_m(s: StoreModel, st: StatementModel) -> Result<
    StoreModel,
    StoreError,
> {
    match st {
        StatementModel::CreateTable(t) => Ok(create_table_m(s, t)),
        StatementModel::SeedUser { username, password } => seed_user_m(s, username, password),
        StatementModel::InsertInventory(item) => insert_inventory_m(s, item),
        StatementModel::InsertSale(sale) => insert_sale_m(s, sale),
    }
}

/// Effect of a whole script, statement by statement, stopping at the first
/// failure. A failed script has no effect at all: the bootstrapper executes
/// each script as a single atomic unit.
pub open spec fn apply_script_m(s: StoreModel, stmts: Seq<StatementModel>) -> Result<
    StoreModel,
    StoreError,
>
    decreases stmts.len(),
{
    if stmts.len() == 0 {
        Ok(s)
    } else {
        match apply_statement_m(s, stmts[0]) {
            Ok(s2) => apply_script_m(s2, stmts.drop_first()),
            Err(e) => Err(e),
        }
    }
}

} // verus!
