//! The bootstrapper's guarantees, stated and proved over the mathematical
//! model that the executable functions' contracts speak of.

use vstd::prelude::*;

use vstd::seq_lib::lemma_multiset_commutative;

use crate::migration::apply_script_m;
use crate::migration::apply_statement_m;
use crate::migration::MigrationModel;
use crate::migration::StatementModel;
use crate::reconcile::distinct_versions;
use crate::reconcile::insert_by_version;
use crate::reconcile::reconcile_m;
use crate::reconcile::run_sorted_m;
use crate::reconcile::sort_by_version;
use crate::reconcile::sorted_by_version;
use crate::schema::declared_migrations_m;
use crate::schema::DECLARED_VERSION;
use crate::store::create_table_m;
use crate::store::has_phone;
use crate::store::has_username;
use crate::store::insert_sale_m;
use crate::store::record_applied_m;
use crate::store::seed_user_m;
use crate::store::SaleRecordModel;
use crate::store::StoreError;
use crate::store::StoreModel;
use crate::store::UserAccountModel;
use crate::store::Table;

verus! {

/// No statement touches the ledger: a script changes table rows and
/// existence flags only.
proof fn lemma_statement_keeps_ledger(s: StoreModel, st: StatementModel)
    ensures
        (match apply_statement_m(s, st) {
            Ok(s2) => s2.ledger == s.ledger,
            Err(_) => true,
        }),
{
}

/// A whole script keeps the ledger unchanged.
proof fn lemma_script_keeps_ledger(s: StoreModel, stmts: Seq<StatementModel>)
    ensures
        (match apply_script_m(s, stmts) {
            Ok(s2) => s2.ledger == s.ledger,
            Err(_) => true,
        }),
    decreases stmts.len(),
{
    if stmts.len() == 0 {
    } else {
        match apply_statement_m(s, stmts[0]) {
            Ok(s2) => {
                lemma_statement_keeps_ledger(s, stmts[0]);
                lemma_script_keeps_ledger(s2, stmts.drop_first());
            },
            Err(_) => {},
        }
    }
}

/// The ledger is append-only: a version once recorded stays recorded through
/// any later pass.
proof fn lemma_run_keeps_applied(s: StoreModel, migs: Seq<MigrationModel>, v: u64)
    requires
        s.applied(v),
    ensures
        run_sorted_m(s, migs).0.applied(v),
    decreases migs.len(),
{
    if migs.len() == 0 {
    } else {
        let m = migs[0];
        if s.applied(m.version) {
            lemma_run_keeps_applied(s, migs.drop_first(), v);
        } else {
            match apply_script_m(s, m.statements) {
                Ok(s2) => {
                    lemma_script_keeps_ledger(s, m.statements);
                    let s3 = record_applied_m(s2, m.version, m.description);
                    let i = choose|i: int| 0 <= i < s.ledger.len() && s.ledger[i].version == v;
                    assert(s3.ledger[i].version == v);
                    lemma_run_keeps_applied(s3, migs.drop_first(), v);
                },
                Err(_) => {},
            }
        }
    }
}

/// One ordered pass is idempotent: running it again from where it ended
/// reproduces the end state and the outcome.
proof fn lemma_run_sorted_idempotent(s: StoreModel, migs: Seq<MigrationModel>)
    ensures
        ({
            let (s1, r1) = run_sorted_m(s, migs);
            run_sorted_m(s1, migs) == (s1, r1)
        }),
    decreases migs.len(),
{
    if migs.len() == 0 {
    } else {
        let m = migs[0];
        let (s1, r1) = run_sorted_m(s, migs);
        if s.applied(m.version) {
            lemma_run_sorted_idempotent(s, migs.drop_first());
            lemma_run_keeps_applied(s, migs.drop_first(), m.version);
        } else {
            match apply_script_m(s, m.statements) {
                Ok(s2) => {
                    lemma_script_keeps_ledger(s, m.statements);
                    let s3 = record_applied_m(s2, m.version, m.description);
                    assert(s3.ledger[s2.ledger.len() as int].version == m.version);
                    assert(s3.applied(m.version));
                    lemma_run_sorted_idempotent(s3, migs.drop_first());
                    lemma_run_keeps_applied(s3, migs.drop_first(), m.version);
                },
                Err(_) => {},
            }
        }
    }
}

/// Invoking reconcile twice in succession on the same target ends in the
/// same observable state — and with the same outcome — as invoking it once.
pub proof fn lemma_reconcile_idempotent(s: StoreModel, migs: Seq<MigrationModel>)
    ensures
        ({
            let (s1, r1) = reconcile_m(s, migs);
            reconcile_m(s1, migs) == (s1, r1)
        }),
{
    lemma_run_sorted_idempotent(s, sort_by_version(migs));
}

/// A failing pass leaves the failing version unrecorded.
proof fn lemma_run_sorted_failure(s: StoreModel, migs: Seq<MigrationModel>)
    ensures
        ({
            let (s1, r1) = run_sorted_m(s, migs);
            r1 matches Some(f) ==> !s1.applied(f.version)
        }),
    decreases migs.len(),
{
    if migs.len() == 0 {
    } else {
        let m = migs[0];
        if s.applied(m.version) {
            lemma_run_sorted_failure(s, migs.drop_first());
        } else {
            match apply_script_m(s, m.statements) {
                Ok(s2) => {
                    lemma_run_sorted_failure(
                        record_applied_m(s2, m.version, m.description),
                        migs.drop_first(),
                    );
                },
                Err(_) => {},
            }
        }
    }
}

/// A migration whose script fails leaves the ledger without that version
/// marked applied — its partial effects are rolled back with the rest of the
/// pass — and a subsequent reconcile call retries that same version: run
/// against the unchanged store it attempts it again and reports the same
/// failure.
pub proof fn lemma_failed_version_not_applied(s: StoreModel, migs: Seq<MigrationModel>)
    ensures
        ({
            let (s1, r1) = reconcile_m(s, migs);
            r1 matches Some(f) ==> !s1.applied(f.version) && reconcile_m(s1, migs) == (s1, r1)
        }),
{
    lemma_run_sorted_failure(s, sort_by_version(migs));
    lemma_run_sorted_idempotent(s, sort_by_version(migs));
}

/// Every element of an insertion is the inserted migration or one of the
/// sequence's own.
proof fn lemma_insert_elems(m: MigrationModel, migs: Seq<MigrationModel>)
    ensures
        forall|k: int|
            0 <= k < insert_by_version(m, migs).len() ==> insert_by_version(m, migs)[k] == m
                || migs.contains(#[trigger] insert_by_version(m, migs)[k]),
    decreases migs.len(),
{
    let r = insert_by_version(m, migs);
    if migs.len() == 0 {
    } else if m.version < migs[0].version {
        assert forall|k: int| 0 <= k < r.len() implies r[k] == m || migs.contains(r[k]) by {
            if k >= 1 {
                assert(r[k] == migs[k - 1]);
            }
        }
    } else {
        lemma_insert_elems(m, migs.drop_first());
        let rest = insert_by_version(m, migs.drop_first());
        assert forall|k: int| 0 <= k < r.len() implies r[k] == m || migs.contains(r[k]) by {
            if k == 0 {
                assert(r[0] == migs[0]);
                assert(migs.contains(migs[0]));
            } else {
                assert(r[k] == rest[k - 1]);
                if rest[k - 1] == m {
                } else {
                    let l = choose|l: int|
                        0 <= l < migs.drop_first().len() && migs.drop_first()[l] == rest[k - 1];
                    assert(migs[l + 1] == rest[k - 1]);
                }
            }
        }
    }
}

/// Insertion keeps the sequence ordered by version.
proof fn lemma_insert_sorted(m: MigrationModel, migs: Seq<MigrationModel>)
    requires
        sorted_by_version(migs),
    ensures
        sorted_by_version(insert_by_version(m, migs)),
    decreases migs.len(),
{
    let r = insert_by_version(m, migs);
    if migs.len() == 0 {
    } else if m.version < migs[0].version {
        assert forall|i: int, j: int| 0 <= i < j < r.len() implies r[i].version <= r[j].version by {
            assert(r[j] == migs[j - 1]);
            if i >= 1 {
                assert(r[i] == migs[i - 1]);
            }
        }
    } else {
        assert(sorted_by_version(migs.drop_first()));
        lemma_insert_sorted(m, migs.drop_first());
        lemma_insert_elems(m, migs.drop_first());
        let rest = insert_by_version(m, migs.drop_first());
        assert forall|i: int, j: int| 0 <= i < j < r.len() implies r[i].version <= r[j].version by {
            assert(r[j] == rest[j - 1]);
            if i >= 1 {
                assert(r[i] == rest[i - 1]);
            } else {
                if rest[j - 1] == m {
                } else {
                    let l = choose|l: int|
                        0 <= l < migs.drop_first().len() && migs.drop_first()[l] == rest[j - 1];
                    assert(migs[l + 1] == rest[j - 1]);
                }
            }
        }
    }
}

/// Sorting yields an ascending-by-version sequence.
pub proof fn lemma_sort_sorts(migs: Seq<MigrationModel>)
    ensures
        sorted_by_version(sort_by_version(migs)),
    decreases migs.len(),
{
    if migs.len() == 0 {
    } else {
        lemma_sort_sorts(migs.drop_last());
        lemma_insert_sorted(migs.last(), sort_by_version(migs.drop_last()));
    }
}

/// A migration whose version is largest goes to the end.
proof fn lemma_insert_at_end(m: MigrationModel, migs: Seq<MigrationModel>)
    requires
        forall|k: int| 0 <= k < migs.len() ==> migs[k].version <= m.version,
    ensures
        insert_by_version(m, migs) == migs.push(m),
{
    crate::reconcile::lemma_insert_by_version_at(m, migs, migs.len() as int);
    assert(migs.take(migs.len() as int) + seq![m] + migs.skip(migs.len() as int) =~= migs.push(m));
}

/// Sorting an already ordered sequence leaves it as it is.
proof fn lemma_sort_of_sorted(migs: Seq<MigrationModel>)
    requires
        sorted_by_version(migs),
    ensures
        sort_by_version(migs) == migs,
    decreases migs.len(),
{
    if migs.len() == 0 {
    } else {
        assert(sorted_by_version(migs.drop_last()));
        lemma_sort_of_sorted(migs.drop_last());
        lemma_insert_at_end(migs.last(), migs.drop_last());
        assert(migs.drop_last().push(migs.last()) =~= migs);
    }
}

/// Migrations apply in ascending version order, not input order: a migration
/// set supplied out of order reconciles exactly as the same set supplied in
/// ascending version order.
pub proof fn lemma_reconcile_ignores_input_order(s: StoreModel, migs: Seq<MigrationModel>)
    ensures
        reconcile_m(s, migs) == reconcile_m(s, sort_by_version(migs)),
{
    lemma_sort_sorts(migs);
    lemma_sort_of_sorted(sort_by_version(migs));
}

/// Two sales rows can never carry the same phone value: once a sale with a
/// phone number is stored, inserting another sale with that phone number
/// fails with a uniqueness violation.
pub proof fn lemma_duplicate_phone_rejected(
    s: StoreModel,
    first: SaleRecordModel,
    second: SaleRecordModel,
)
    requires
        second.phone == first.phone,
        insert_sale_m(s, first) is Ok,
    ensures
        insert_sale_m(insert_sale_m(s, first)->Ok_0, second) == Err::<
            StoreModel,
            StoreError,
        >(StoreError::ConstraintViolation(Table::Sales)),
{
    let s1 = insert_sale_m(s, first)->Ok_0;
    assert(s1.sales == s.sales.push(first));
    assert(s1.sales[s.sales.len() as int] == first);
    assert(has_phone(s1.sales, second.phone));
}

/// Insertion adds exactly the inserted migration to the sequence's multiset.
proof fn lemma_insert_multiset(m: MigrationModel, migs: Seq<MigrationModel>)
    ensures
        insert_by_version(m, migs).to_multiset() == migs.to_multiset().insert(m),
    decreases migs.len(),
{
    broadcast use vstd::multiset::group_multiset_axioms;
    broadcast use vstd::seq_lib::group_to_multiset_ensures;

    let r = insert_by_version(m, migs);
    if migs.len() == 0 {
        assert(seq![m] =~= Seq::<MigrationModel>::empty().push(m));
        assert(r.to_multiset() =~= migs.to_multiset().insert(m));
    } else if m.version < migs[0].version {
        lemma_multiset_commutative(seq![m], migs);
        assert(seq![m] =~= Seq::<MigrationModel>::empty().push(m));
        assert(r.to_multiset() =~= migs.to_multiset().insert(m));
    } else {
        lemma_insert_multiset(m, migs.drop_first());
        lemma_multiset_commutative(seq![migs[0]], insert_by_version(m, migs.drop_first()));
        assert(migs =~= seq![migs[0]] + migs.drop_first());
        lemma_multiset_commutative(seq![migs[0]], migs.drop_first());
        assert(seq![migs[0]] =~= Seq::<MigrationModel>::empty().push(migs[0]));
        assert(r.to_multiset() =~= migs.to_multiset().insert(m));
    }
}

/// Sorting changes neither which migrations there are nor how often.
proof fn lemma_sort_multiset(migs: Seq<MigrationModel>)
    ensures
        sort_by_version(migs).to_multiset() == migs.to_multiset(),
    decreases migs.len(),
{
    broadcast use vstd::seq_lib::group_to_multiset_ensures;

    if migs.len() == 0 {
        assert(migs =~= Seq::<MigrationModel>::empty());
    } else {
        lemma_sort_multiset(migs.drop_last());
        lemma_insert_multiset(migs.last(), sort_by_version(migs.drop_last()));
        assert(migs =~= migs.drop_last().push(migs.last()));
    }
}

/// A sequence holding, as a multiset, exactly the migrations of a
/// distinct-version set cannot repeat a version either.
proof fn lemma_multiset_distinct(s1: Seq<MigrationModel>, s2: Seq<MigrationModel>)
    requires
        distinct_versions(s1),
        s1.to_multiset() == s2.to_multiset(),
    ensures
        distinct_versions(s2),
{
    broadcast use vstd::multiset::group_multiset_axioms;
    broadcast use vstd::seq_lib::group_to_multiset_ensures;

    assert forall|i: int, j: int| 0 <= i < j < s2.len() implies s2[i].version != s2[j].version by {
        if s2[i].version == s2[j].version {
            let x = s2[i];
            let y = s2[j];
            if x == y {
                s2.remove_ensures(i);
                assert(s2.remove(i)[j - 1] == y);
                assert(s2.remove(i).contains(x));
                assert(s2.remove(i).to_multiset() =~= s2.to_multiset().remove(x));
                assert(s2.to_multiset().remove(x).count(x) > 0);
                assert(s2.contains(x));
                assert(s2.to_multiset().count(x) >= 2);
                assert(s1.to_multiset().count(x) >= 2);
                assert(s1.contains(x));
                let i1 = choose|i1: int| 0 <= i1 < s1.len() && s1[i1] == x;
                s1.remove_ensures(i1);
                assert(s1.remove(i1).to_multiset() =~= s1.to_multiset().remove(x));
                assert(s1.remove(i1).to_multiset().count(x) > 0);
                assert(s1.remove(i1).contains(x));
                let k = choose|k: int| 0 <= k < s1.remove(i1).len() && s1.remove(i1)[k] == x;
                let i2: int = if k < i1 {
                    k
                } else {
                    k + 1
                };
                assert(s1[i2] == x);
                if i1 < i2 {
                    assert(s1[i1].version != s1[i2].version);
                } else {
                    assert(s1[i2].version != s1[i1].version);
                }
                assert(false);
            } else {
                assert(s2.contains(x));
                assert(s2.contains(y));
                assert(s1.to_multiset().count(x) > 0);
                assert(s1.to_multiset().count(y) > 0);
                assert(s1.contains(x));
                assert(s1.contains(y));
                let i1 = choose|i1: int| 0 <= i1 < s1.len() && s1[i1] == x;
                let j1 = choose|j1: int| 0 <= j1 < s1.len() && s1[j1] == y;
                if i1 < j1 {
                    assert(s1[i1].version != s1[j1].version);
                } else {
                    assert(s1[j1].version != s1[i1].version);
                }
                assert(false);
            }
        }
    }
}

/// Two ascending sequences without repeated versions that hold the same
/// migrations are the same sequence.
proof fn lemma_sorted_unique(s1: Seq<MigrationModel>, s2: Seq<MigrationModel>)
    requires
        sorted_by_version(s1),
        sorted_by_version(s2),
        distinct_versions(s1),
        distinct_versions(s2),
        s1.to_multiset() == s2.to_multiset(),
    ensures
        s1 == s2,
    decreases s1.len(),
{
    broadcast use vstd::multiset::group_multiset_axioms;
    broadcast use vstd::seq_lib::group_to_multiset_ensures;

    assert(s1.len() == s1.to_multiset().len());
    assert(s2.len() == s2.to_multiset().len());
    if s1.len() == 0 {
        assert(s1 =~= s2);
    } else {
        assert(s1.contains(s1[0]));
        assert(s2.to_multiset().count(s1[0]) > 0);
        assert(s2.contains(s1[0]));
        let j = choose|j: int| 0 <= j < s2.len() && s2[j] == s1[0];
        assert(s2.contains(s2[0]));
        assert(s1.to_multiset().count(s2[0]) > 0);
        assert(s1.contains(s2[0]));
        let i = choose|i: int| 0 <= i < s1.len() && s1[i] == s2[0];
        assert(s1[0].version <= s2[0].version) by {
            if i != 0 {
                assert(s1[0].version <= s1[i].version);
            }
        }
        assert(s2[0].version <= s1[0].version) by {
            if j != 0 {
                assert(s2[0].version <= s2[j].version);
            }
        }
        if j != 0 {
            assert(s2[0].version != s2[j].version);
            assert(false);
        }
        assert(s2[0] == s1[0]);
        s1.remove_ensures(0);
        s2.remove_ensures(0);
        let t1 = s1.remove(0);
        let t2 = s2.remove(0);
        assert(t1.to_multiset() == t2.to_multiset());
        assert forall|a: int, b: int| 0 <= a < b < t1.len() implies t1[a].version
            <= t1[b].version && t1[a].version != t1[b].version by {
            assert(t1[a] == s1[a + 1]);
            assert(t1[b] == s1[b + 1]);
        }
        assert forall|a: int, b: int| 0 <= a < b < t2.len() implies t2[a].version
            <= t2[b].version && t2[a].version != t2[b].version by {
            assert(t2[a] == s2[a + 1]);
            assert(t2[b] == s2[b + 1]);
        }
        lemma_sorted_unique(t1, t2);
        assert forall|k: int| 0 <= k < s1.len() implies s1[k] == s2[k] by {
            if k > 0 {
                assert(t1[k - 1] == s1[k]);
                assert(t2[k - 1] == s2[k]);
            }
        }
        assert(s1 =~= s2);
    }
}

/// Supplying the same migrations in any order reconciles identically: the
/// outcome depends on the set of migrations alone, never on input order.
pub proof fn lemma_reconcile_permutation_invariant(
    s: StoreModel,
    migs1: Seq<MigrationModel>,
    migs2: Seq<MigrationModel>,
)
    requires
        distinct_versions(migs1),
        distinct_versions(migs2),
        migs1.to_multiset() == migs2.to_multiset(),
    ensures
        reconcile_m(s, migs1) == reconcile_m(s, migs2),
{
    lemma_sort_sorts(migs1);
    lemma_sort_sorts(migs2);
    lemma_sort_multiset(migs1);
    lemma_sort_multiset(migs2);
    lemma_multiset_distinct(migs1, sort_by_version(migs1));
    lemma_multiset_distinct(migs1, sort_by_version(migs2));
    lemma_sorted_unique(sort_by_version(migs1), sort_by_version(migs2));
}

/// Insertion keeps every element it is given: the inserted one and all of
/// the sequence's own.
proof fn lemma_insert_contains(m: MigrationModel, migs: Seq<MigrationModel>, x: MigrationModel)
    requires
        x == m || migs.contains(x),
    ensures
        insert_by_version(m, migs).contains(x),
    decreases migs.len(),
{
    let r = insert_by_version(m, migs);
    if migs.len() == 0 {
        assert(r[0] == m);
    } else if m.version < migs[0].version {
        if x == m {
            assert(r[0] == m);
        } else {
            let l = choose|l: int| 0 <= l < migs.len() && migs[l] == x;
            assert(r[l + 1] == x);
        }
    } else {
        let rest = insert_by_version(m, migs.drop_first());
        if x == migs[0] {
            assert(r[0] == x);
        } else {
            if x != m {
                let l0 = choose|l0: int| 0 <= l0 < migs.len() && migs[l0] == x;
                assert(migs.drop_first()[l0 - 1] == x);
            }
            lemma_insert_contains(m, migs.drop_first(), x);
            let l = choose|l: int| 0 <= l < rest.len() && rest[l] == x;
            assert(r[l + 1] == x);
        }
    }
}

/// Sorting keeps every element.
proof fn lemma_sort_contains(migs: Seq<MigrationModel>, x: MigrationModel)
    requires
        migs.contains(x),
    ensures
        sort_by_version(migs).contains(x),
    decreases migs.len(),
{
    if migs.len() == 0 {
    } else {
        if x == migs.last() {
            lemma_insert_contains(migs.last(), sort_by_version(migs.drop_last()), x);
        } else {
            let l = choose|l: int| 0 <= l < migs.len() && migs[l] == x;
            assert(migs.drop_last()[l] == x);
            lemma_sort_contains(migs.drop_last(), x);
            lemma_insert_contains(migs.last(), sort_by_version(migs.drop_last()), x);
        }
    }
}

/// A successful pass records every version it was given.
proof fn lemma_run_success_applied(s: StoreModel, migs: Seq<MigrationModel>)
    ensures
        ({
            let (s1, r1) = run_sorted_m(s, migs);
            r1 is None ==> forall|k: int|
                0 <= k < migs.len() ==> #[trigger] s1.applied(migs[k].version)
        }),
    decreases migs.len(),
{
    if migs.len() == 0 {
    } else {
        let m = migs[0];
        let (s1, r1) = run_sorted_m(s, migs);
        if s.applied(m.version) {
            lemma_run_success_applied(s, migs.drop_first());
            lemma_run_keeps_applied(s, migs.drop_first(), m.version);
            if r1 is None {
                assert forall|k: int| 0 <= k < migs.len() implies #[trigger] s1.applied(
                    migs[k].version,
                ) by {
                    if k >= 1 {
                        assert(migs.drop_first()[k - 1] == migs[k]);
                    }
                }
            }
        } else {
            match apply_script_m(s, m.statements) {
                Ok(s2) => {
                    lemma_script_keeps_ledger(s, m.statements);
                    let s3 = record_applied_m(s2, m.version, m.description);
                    assert(s3.ledger[s2.ledger.len() as int].version == m.version);
                    assert(s3.applied(m.version));
                    lemma_run_success_applied(s3, migs.drop_first());
                    lemma_run_keeps_applied(s3, migs.drop_first(), m.version);
                    if r1 is None {
                        assert forall|k: int| 0 <= k < migs.len() implies #[trigger] s1.applied(
                            migs[k].version,
                        ) by {
                            if k >= 1 {
                                assert(migs.drop_first()[k - 1] == migs[k]);
                            }
                        }
                    }
                },
                Err(_) => {},
            }
        }
    }
}

/// On success, the ledger reflects every supplied version as applied.
pub proof fn lemma_success_records_all(s: StoreModel, migs: Seq<MigrationModel>)
    ensures
        ({
            let (s1, r1) = reconcile_m(s, migs);
            r1 is None ==> forall|k: int|
                0 <= k < migs.len() ==> #[trigger] s1.applied(migs[k].version)
        }),
{
    lemma_run_success_applied(s, sort_by_version(migs));
    let (s1, r1) = reconcile_m(s, migs);
    if r1 is None {
        assert forall|k: int| 0 <= k < migs.len() implies #[trigger] s1.applied(
            migs[k].version,
        ) by {
            assert(migs.contains(migs[k]));
            lemma_sort_contains(migs, migs[k]);
            let l = choose|l: int|
                0 <= l < sort_by_version(migs).len() && sort_by_version(migs)[l] == migs[k];
            assert(s1.applied(sort_by_version(migs)[l].version));
        }
    }
}

/// A statement keeps the store well-formed: the UNIQUE constraints are
/// checked before a row goes in, and rows go only into existing tables.
proof fn lemma_statement_preserves_wf(s: StoreModel, st: StatementModel)
    requires
        s.wf(),
    ensures
        (match apply_statement_m(s, st) {
            Ok(s2) => s2.wf(),
            Err(_) => true,
        }),
{
    match st {
        StatementModel::CreateTable(_) => {},
        StatementModel::SeedUser { username, password } => {
            if s.users_exists && !has_username(s.users, username) {
                let s2 = seed_user_m(s, username, password)->Ok_0;
                assert forall|i: int, j: int|
                    0 <= i < j < s2.users.len() implies s2.users[i].username
                    != s2.users[j].username by {
                    if j < s.users.len() {
                    } else {
                        assert(s2.users[j].username == username);
                        assert(s2.users[i] == s.users[i]);
                    }
                }
            }
        },
        StatementModel::InsertInventory(_) => {},
        StatementModel::InsertSale(sale) => {
            if s.sales_exists && !has_phone(s.sales, sale.phone) {
                let s2 = insert_sale_m(s, sale)->Ok_0;
                assert forall|i: int, j: int|
                    0 <= i < j < s2.sales.len() implies s2.sales[i].phone != s2.sales[j].phone by {
                    if j < s.sales.len() {
                    } else {
                        assert(s2.sales[j].phone == sale.phone);
                        assert(s2.sales[i] == s.sales[i]);
                    }
                }
            }
        },
    }
}

/// A whole script keeps the store well-formed.
proof fn lemma_script_preserves_wf(s: StoreModel, stmts: Seq<StatementModel>)
    requires
        s.wf(),
    ensures
        (match apply_script_m(s, stmts) {
            Ok(s2) => s2.wf(),
            Err(_) => true,
        }),
    decreases stmts.len(),
{
    if stmts.len() == 0 {
    } else {
        match apply_statement_m(s, stmts[0]) {
            Ok(s2) => {
                lemma_statement_preserves_wf(s, stmts[0]);
                lemma_script_preserves_wf(s2, stmts.drop_first());
            },
            Err(_) => {},
        }
    }
}

/// One ordered pass keeps the store well-formed; in particular a version is
/// recorded only when the ledger does not hold it yet, so no version is ever
/// recorded twice.
proof fn lemma_run_preserves_wf(s: StoreModel, migs: Seq<MigrationModel>)
    requires
        s.wf(),
    ensures
        run_sorted_m(s, migs).0.wf(),
    decreases migs.len(),
{
    if migs.len() == 0 {
    } else {
        let m = migs[0];
        if s.applied(m.version) {
            lemma_run_preserves_wf(s, migs.drop_first());
        } else {
            match apply_script_m(s, m.statements) {
                Ok(s2) => {
                    lemma_script_preserves_wf(s, m.statements);
                    lemma_script_keeps_ledger(s, m.statements);
                    let s3 = record_applied_m(s2, m.version, m.description);
                    assert forall|i: int, j: int|
                        0 <= i < j < s3.ledger.len() implies s3.ledger[i].version
                        != s3.ledger[j].version by {
                        if j < s2.ledger.len() {
                        } else {
                            assert(s3.ledger[j].version == m.version);
                            assert(s3.ledger[i] == s2.ledger[i]);
                        }
                    }
                    assert(s3.wf());
                    lemma_run_preserves_wf(s3, migs.drop_first());
                },
                Err(_) => {},
            }
        }
    }
}

/// Well-formedness is an invariant of reconciling: the UNIQUE constraints of
/// the schema and the once-only ledger survive every call, whatever the
/// supplied migrations do.
pub proof fn lemma_reconcile_preserves_wf(s: StoreModel, migs: Seq<MigrationModel>)
    requires
        s.wf(),
    ensures
        reconcile_m(s, migs).0.wf(),
{
    lemma_run_preserves_wf(s, sort_by_version(migs));
}

/// What the declared version-2 script does to any store: the three tables
/// exist afterwards; the admin row is seeded only when no row with that
/// username was present; nothing else changes — and it never fails.
proof fn lemma_declared_script_effect(s: StoreModel)
    ensures
        ({
            let tables = (StoreModel {
                inventory_exists: true,
                sales_exists: true,
                users_exists: true,
                ..s
            });
            apply_script_m(s, declared_migrations_m()[0].statements) == (if has_username(
                s.users,
                "admin"@,
            ) {
                Ok::<StoreModel, StoreError>(tables)
            } else {
                Ok::<StoreModel, StoreError>(
                    StoreModel {
                        users: s.users.push(
                            UserAccountModel { username: "admin"@, password: "admin"@ },
                        ),
                        ..tables
                    },
                )
            })
        }),
{
    let stmts = declared_migrations_m()[0].statements;
    let d1 = stmts.drop_first();
    let d2 = d1.drop_first();
    let d3 = d2.drop_first();
    let d4 = d3.drop_first();
    assert(stmts[0] == StatementModel::CreateTable(Table::Inventory));
    assert(d1[0] == StatementModel::CreateTable(Table::Sales));
    assert(d2[0] == StatementModel::CreateTable(Table::Users));
    assert(d3[0] == (StatementModel::SeedUser { username: "admin"@, password: "admin"@ }));
    assert(d4.len() == 0);
    let s1 = create_table_m(s, Table::Inventory);
    let s2 = create_table_m(s1, Table::Sales);
    let s3 = create_table_m(s2, Table::Users);
    assert(s3 =~= (StoreModel {
        inventory_exists: true,
        sales_exists: true,
        users_exists: true,
        ..s
    }));
    assert(apply_script_m(s, stmts) == apply_script_m(s1, d1));
    assert(apply_script_m(s1, d1) == apply_script_m(s2, d2));
    assert(apply_script_m(s2, d2) == apply_script_m(s3, d3));
    if has_username(s.users, "admin"@) {
        assert(seed_user_m(s3, "admin"@, "admin"@) == Ok::<StoreModel, StoreError>(s3));
        assert(apply_script_m(s3, d3) == apply_script_m(s3, d4));
    } else {
        let seeded = (StoreModel {
            users: s.users.push(UserAccountModel { username: "admin"@, password: "admin"@ }),
            ..s3
        });
        assert(seed_user_m(s3, "admin"@, "admin"@) == Ok::<StoreModel, StoreError>(seeded));
        assert(apply_script_m(s3, d3) == apply_script_m(seeded, d4));
    }
}

/// The declared migration set is already in ascending version order.
proof fn lemma_declared_sorted()
    ensures
        sort_by_version(declared_migrations_m()) == declared_migrations_m(),
{
    lemma_sort_of_sorted(declared_migrations_m());
}

/// On a fresh target, one reconcile call creates exactly the three declared
/// tables and exactly one users row — the admin seed — and records the
/// declared version as applied.
pub proof fn lemma_first_run_bootstraps()
    ensures
        ({
            let (s1, r1) = reconcile_m(StoreModel::init(), declared_migrations_m());
            &&& r1 is None
            &&& s1.inventory_exists
            &&& s1.sales_exists
            &&& s1.users_exists
            &&& s1.inventory.len() == 0
            &&& s1.sales.len() == 0
            &&& s1.users =~= seq![UserAccountModel { username: "admin"@, password: "admin"@ }]
            &&& s1.ledger.len() == 1
            &&& s1.ledger[0].version == DECLARED_VERSION
        }),
{
    lemma_declared_sorted();
    let s0 = StoreModel::init();
    let m = declared_migrations_m()[0];
    assert(!s0.applied(m.version));
    assert(!has_username(s0.users, "admin"@));
    lemma_declared_script_effect(s0);
    let seeded = apply_script_m(s0, m.statements)->Ok_0;
    let s_rec = record_applied_m(seeded, m.version, m.description);
    assert(declared_migrations_m().drop_first().len() == 0);
    assert(run_sorted_m(s_rec, declared_migrations_m().drop_first()) == (
        s_rec,
        None::<crate::reconcile::MigrationFailure>,
    ));
    assert(s_rec.users =~= seq![UserAccountModel { username: "admin"@, password: "admin"@ }]);
}

/// If the admin username row already exists — whatever its password —
/// reconciling with the declared migration set leaves the users table
/// exactly as it was: the seed never overwrites an account.
pub proof fn lemma_existing_admin_untouched(s: StoreModel)
    requires
        has_username(s.users, "admin"@),
    ensures
        ({
            let (s1, r1) = reconcile_m(s, declared_migrations_m());
            s1.users == s.users && r1 is None
        }),
{
    lemma_declared_sorted();
    let m = declared_migrations_m()[0];
    assert(declared_migrations_m().drop_first().len() == 0);
    if s.applied(m.version) {
        assert(run_sorted_m(s, declared_migrations_m()) == run_sorted_m(
            s,
            declared_migrations_m().drop_first(),
        ));
    } else {
        lemma_declared_script_effect(s);
        let tables = apply_script_m(s, m.statements)->Ok_0;
        let s_rec = record_applied_m(tables, m.version, m.description);
        assert(run_sorted_m(s_rec, declared_migrations_m().drop_first()) == (
            s_rec,
            None::<crate::reconcile::MigrationFailure>,
        ));
        assert(s_rec.users == s.users);
    }
}

} // verus!
