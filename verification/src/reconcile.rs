//! The bootstrapper: brings a store to the declared target schema version by
//! applying, in ascending version order, every supplied migration whose
//! version the ledger does not record yet. Each script runs as a single
//! atomic unit: a version is recorded — and its changes kept — only when the
//! whole script succeeded.

use vstd::prelude::*;

use crate::migration::apply_script_m;
use crate::migration::apply_statement_m;
use crate::migration::mig_views;
use crate::migration::stmt_views;
use crate::migration::Migration;
use crate::migration::MigrationModel;
use crate::migration::Statement;
use crate::store::record_applied_m;
use crate::store::Dup;
use crate::store::Store;
use crate::store::StoreError;

verus! {

/// Why a reconcile call failed: the version whose script could not be
/// executed fully, and the underlying cause.
#[derive(Clone, Copy, PartialEq, Eq, Structural, Debug)]
pub struct MigrationFailure {
    pub version: u64,
    pub cause: StoreError,
}

/// No two supplied migrations share a version.
pub open spec fn distinct_versions(migs: Seq<MigrationModel>) -> bool {
    forall|i: int, j: int| 0 <= i < j < migs.len() ==> migs[i].version != migs[j].version
}

/// Versions never decrease along the sequence.
pub open spec fn sorted_by_version(migs: Seq<MigrationModel>) -> bool {
    forall|i: int, j: int| 0 <= i < j < migs.len() ==> migs[i].version <= migs[j].version
}

/// Places a migration before the first entry of strictly larger version.
pub open spec fn insert_by_version(m: MigrationModel, migs: Seq<MigrationModel>) -> Seq<
    MigrationModel,
>
    decreases migs.len(),
{
    if migs.len() == 0 {
        seq![m]
    } else if m.version < migs[0].version {
        seq![m] + migs
    } else {
        seq![migs[0]] + insert_by_version(m, migs.drop_first())
    }
}

/// The supplied migrations, rearranged into ascending version order.
pub open spec fn sort_by_version(migs: Seq<MigrationModel>) -> Seq<MigrationModel>
    decreases migs.len(),
{
    if migs.len() == 0 {
        Seq::empty()
    } else {
        insert_by_version(migs.last(), sort_by_version(migs.drop_last()))
    }
}

/// One pass over an already ordered migration sequence: an applied version is
/// skipped; an unapplied one has its script run atomically and, on success,
/// its version recorded; the first failure stops the pass with the store as
/// it stood before the failing script.
pub open spec fn run_sorted_m(s: crate::store::StoreModel, migs: Seq<MigrationModel>) -> (
    crate::store::StoreModel,
    Option<MigrationFailure>,
)
    decreases migs.len(),
{
    if migs.len() == 0 {
        (s, None)
    } else {
        let m = migs[0];
        if s.applied(m.version) {
            run_sorted_m(s, migs.drop_first())
        } else {
            match apply_script_m(s, m.statements) {
                Ok(s2) => run_sorted_m(
                    record_applied_m(s2, m.version, m.description),
                    migs.drop_first(),
                ),
                Err(e) => (s, Some(MigrationFailure { version: m.version, cause: e })),
            }
        }
    }
}

/// What reconciling does to the store: the migrations are taken in ascending
/// version order — not input order — and run as one pass.
pub open spec fn reconcile_m(s: crate::store::StoreModel, migs: Seq<MigrationModel>) -> (
    crate::store::StoreModel,
    Option<MigrationFailure>,
) {
    run_sorted_m(s, sort_by_version(migs))
}

/// Where `insert_by_version` puts the new migration: splitting the sequence
/// at any index whose left part holds no strictly larger version and whose
/// right part starts with one (if it is not the end) yields the insertion.
pub(crate) proof fn lemma_insert_by_version_at(m: MigrationModel, migs: Seq<MigrationModel>, j: int)
    requires
        0 <= j <= migs.len(),
        forall|k: int| 0 <= k < j ==> !(m.version < migs[k].version),
        j < migs.len() ==> m.version < migs[j].version,
    ensures
        insert_by_version(m, migs) == migs.take(j) + seq![m] + migs.skip(j),
    decreases migs.len(),
{
    if migs.len() == 0 {
        assert(migs.take(0) + seq![m] + migs.skip(0) =~= seq![m]);
    } else if m.version < migs[0].version {
        assert(j == 0);
        assert(migs.take(0) + seq![m] + migs.skip(0) =~= seq![m] + migs);
    } else {
        assert(j >= 1);
        assert(forall|k: int|
            0 <= k < j - 1 ==> !(m.version < #[trigger] migs.drop_first()[k].version));
        lemma_insert_by_version_at(m, migs.drop_first(), j - 1);
        assert(seq![migs[0]] + (migs.drop_first().take(j - 1) + seq![m] + migs.drop_first().skip(
            j - 1,
        )) =~= migs.take(j) + seq![m] + migs.skip(j));
    }
}

impl Store {
    /// Executes one statement. A failing statement leaves the store
    /// unchanged.
    pub fn apply_statement(&mut self, st: &Statement) -> (r: Result<(), StoreError>)
        ensures
            (match apply_statement_m(old(self)@, st@) {
                Ok(m) => r is Ok && final(self)@ == m,
                Err(e) => r == Err::<(), StoreError>(e) && final(self)@ == old(self)@,
            }),
    {
        match st {
            Statement::CreateTable(t) => {
                self.create_table(*t);
                Ok(())
            },
            Statement::SeedUser { username, password } => self.seed_user(username, password),
            Statement::InsertInventory(item) => self.insert_inventory(item),
            Statement::InsertSale(sale) => self.insert_sale(sale),
        }
    }

    /// Executes a whole script as a single atomic unit: either every
    /// statement succeeds and the combined effect is committed, or the store
    /// is left exactly as it was.
    pub fn apply_script(&mut self, stmts: &Vec<Statement>) -> (r: Result<(), StoreError>)
        ensures
            (match apply_script_m(old(self)@, stmt_views(stmts@)) {
                Ok(m) => r is Ok && final(self)@ == m,
                Err(e) => r == Err::<(), StoreError>(e) && final(self)@ == old(self)@,
            }),
    {
        let mut scratch = self.duplicate();
        proof {
            assert(stmt_views(stmts@).skip(0) =~= stmt_views(stmts@));
        }
        let mut i: usize = 0;
        while i < stmts.len()
            invariant
                i <= stmts.len(),
                self@ == old(self)@,
                apply_script_m(old(self)@, stmt_views(stmts@)) == apply_script_m(
                    scratch@,
                    stmt_views(stmts@).skip(i as int),
                ),
            decreases stmts.len() - i,
        {
            proof {
                assert(stmt_views(stmts@).skip(i as int)[0] == stmts@[i as int]@);
                assert(stmt_views(stmts@).skip(i as int).drop_first() =~= stmt_views(stmts@).skip(
                    i as int + 1,
                ));
            }
            match scratch.apply_statement(&stmts[i]) {
                Ok(()) => {},
                Err(e) => {
                    return Err(e);
                },
            }
            i += 1;
        }
        proof {
            assert(stmt_views(stmts@).skip(stmts.len() as int)
                =~= Seq::<crate::migration::StatementModel>::empty());
        }
        let ghost committed = scratch@;
        *self = scratch;
        proof {
            assert(self@ == committed);
        }
        Ok(())
    }
}

/// Inserts a migration into an ordered vector, before the first entry of
/// strictly larger version.
fn insert_migration(out: &mut Vec<Migration>, m: Migration)
    ensures
        mig_views(final(out)@) == insert_by_version(m@, mig_views(old(out)@)),
{
    let mut j: usize = 0;
    while j < out.len() && !(m.version < out[j].version)
        invariant
            j <= out.len(),
            forall|k: int| 0 <= k < j ==> !(m@.version < mig_views(out@)[k].version),
        decreases out.len() - j,
    {
        j += 1;
    }
    proof {
        lemma_insert_by_version_at(m@, mig_views(old(out)@), j as int);
    }
    out.insert(j, m);
    proof {
        assert(mig_views(out@) =~= mig_views(old(out)@).take(j as int) + seq![m@] + mig_views(
            old(out)@,
        ).skip(j as int));
    }
}

/// A copy of the supplied migrations, rearranged into ascending version
/// order.
fn sorted_migrations(migs: &Vec<Migration>) -> (r: Vec<Migration>)
    ensures
        mig_views(r@) == sort_by_version(mig_views(migs@)),
{
    let mut out: Vec<Migration> = Vec::new();
    let mut i: usize = 0;
    while i < migs.len()
        invariant
            i <= migs.len(),
            mig_views(out@) == sort_by_version(mig_views(migs@).take(i as int)),
        decreases migs.len() - i,
    {
        proof {
            assert(mig_views(migs@).take(i as int + 1).drop_last() =~= mig_views(migs@).take(
                i as int,
            ));
            assert(mig_views(migs@).take(i as int + 1).last() == migs@[i as int]@);
        }
        insert_migration(&mut out, migs[i].dup());
        i += 1;
    }
    proof {
        assert(mig_views(migs@).take(migs.len() as int) =~= mig_views(migs@));
    }
    out
}

/// Brings the store to the declared target version: every supplied migration
/// whose version the ledger does not record yet is applied, in ascending
/// version order, each script as one atomic unit, and its version recorded;
/// the call stops at the first failure, naming the failing version and the
/// underlying cause, with the store kept at the last good version.
pub fn reconcile(store: &mut Store, migrations: &Vec<Migration>) -> (r: Result<
    (),
    MigrationFailure,
>)
    requires
        distinct_versions(mig_views(migrations@)),
    ensures
        final(store)@ == reconcile_m(old(store)@, mig_views(migrations@)).0,
        (match reconcile_m(old(store)@, mig_views(migrations@)).1 {
            Some(f) => r == Err::<(), MigrationFailure>(f),
            None => r is Ok,
        }),
{
    let sorted = sorted_migrations(migrations);
    let ghost ordered = sort_by_version(mig_views(migrations@));
    proof {
        assert(ordered.skip(0) =~= ordered);
    }
    let mut i: usize = 0;
    while i < sorted.len()
        invariant
            i <= sorted.len(),
            ordered == sort_by_version(mig_views(migrations@)),
            mig_views(sorted@) == ordered,
            run_sorted_m(old(store)@, ordered) == run_sorted_m(store@, ordered.skip(i as int)),
        decreases sorted.len() - i,
    {
        proof {
            assert(ordered.skip(i as int)[0] == sorted@[i as int]@);
            assert(ordered.skip(i as int).drop_first() =~= ordered.skip(i as int + 1));
        }
        let version = sorted[i].version;
        if !store.has_applied(version) {
            match store.apply_script(&sorted[i].statements) {
                Ok(()) => {
                    store.record_applied(version, &sorted[i].description);
                },
                Err(e) => {
                    proof {
                        assert(run_sorted_m(store@, ordered.skip(i as int)) == (
                            store@,
                            Some(MigrationFailure { version, cause: e }),
                        ));
                    }
                    return Err(MigrationFailure { version, cause: e });
                },
            }
        }
        i += 1;
    }
    proof {
        assert(ordered.skip(sorted.len() as int) =~= Seq::<MigrationModel>::empty());
    }
    Ok(())
}

} // verus!
