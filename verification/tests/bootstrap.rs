use schema_bootstrap::migration::Migration;
use schema_bootstrap::migration::MigrationKind;
use schema_bootstrap::migration::Statement;
use schema_bootstrap::reconcile::reconcile;
use schema_bootstrap::reconcile::MigrationFailure;
use schema_bootstrap::schema::declared_migrations;
use schema_bootstrap::schema::DECLARED_VERSION;
use schema_bootstrap::store::InventoryItem;
use schema_bootstrap::store::SaleRecord;
use schema_bootstrap::store::Store;
use schema_bootstrap::store::StoreError;
use schema_bootstrap::store::Table;

fn sale(name: &str, phone: &str) -> SaleRecord {
    SaleRecord {
        name: String::from(name),
        phone: String::from(phone),
        address: String::from("12 Main St"),
        item_type: String::from("shirt"),
        color: String::from("blue"),
        size: String::from("40"),
        quantity: 1,
    }
}

fn item() -> InventoryItem {
    InventoryItem {
        item_type: String::from("shirt"),
        color: String::from("blue"),
        size: 40,
        quantity: 3,
        price: 1500,
    }
}

fn observable(store: &Store) -> (bool, bool, bool, usize, usize, usize, Vec<u64>, Option<String>) {
    (
        store.table_exists(Table::Inventory),
        store.table_exists(Table::Sales),
        store.table_exists(Table::Users),
        store.inventory_count(),
        store.sale_count(),
        store.user_count(),
        store.ledger_versions(),
        store.password_of(&String::from("admin")),
    )
}

#[test]
fn fresh_reconcile_creates_schema_and_seed() {
    let mut store = Store::new();
    let r = reconcile(&mut store, &declared_migrations());
    assert_eq!(r, Ok(()));
    assert!(store.table_exists(Table::Inventory));
    assert!(store.table_exists(Table::Sales));
    assert!(store.table_exists(Table::Users));
    assert_eq!(store.inventory_count(), 0);
    assert_eq!(store.sale_count(), 0);
    assert_eq!(store.user_count(), 1);
    assert_eq!(store.password_of(&String::from("admin")), Some(String::from("admin")));
    assert_eq!(store.ledger_versions(), vec![DECLARED_VERSION]);
    assert!(store.has_applied(DECLARED_VERSION));
}

#[test]
fn reconcile_twice_is_idempotent() {
    let mut store = Store::new();
    let migrations = declared_migrations();
    assert_eq!(reconcile(&mut store, &migrations), Ok(()));
    let once = observable(&store);
    assert_eq!(reconcile(&mut store, &migrations), Ok(()));
    assert_eq!(observable(&store), once);
}

#[test]
fn existing_admin_password_kept() {
    let mut store = Store::new();
    store.create_table(Table::Users);
    let r = store.seed_user(&String::from("admin"), &String::from("secret"));
    assert_eq!(r, Ok(()));
    assert_eq!(reconcile(&mut store, &declared_migrations()), Ok(()));
    assert_eq!(store.user_count(), 1);
    assert_eq!(store.password_of(&String::from("admin")), Some(String::from("secret")));
}

#[test]
fn out_of_order_migrations_apply_ascending() {
    let mut store = Store::new();
    let later = Migration {
        version: 5,
        description: String::from("stock_one_item"),
        statements: vec![Statement::InsertInventory(item())],
        kind: MigrationKind::Up,
    };
    let mut migrations = declared_migrations();
    migrations.insert(0, later);
    assert_eq!(reconcile(&mut store, &migrations), Ok(()));
    assert_eq!(store.ledger_versions(), vec![DECLARED_VERSION, 5]);
    assert_eq!(store.inventory_count(), 1);
}

#[test]
fn duplicate_phone_rejected_on_second_insert() {
    let mut store = Store::new();
    store.create_table(Table::Sales);
    assert_eq!(store.insert_sale(&sale("Ada", "0101")), Ok(()));
    assert_eq!(
        store.insert_sale(&sale("Ben", "0101")),
        Err(StoreError::ConstraintViolation(Table::Sales))
    );
    assert_eq!(store.sale_count(), 1);
}

#[test]
fn distinct_phones_accepted() {
    let mut store = Store::new();
    store.create_table(Table::Sales);
    assert_eq!(store.insert_sale(&sale("Ada", "0101")), Ok(()));
    assert_eq!(store.insert_sale(&sale("Ben", "0202")), Ok(()));
    assert_eq!(store.sale_count(), 2);
}

#[test]
fn failed_migration_not_recorded_and_retried() {
    let mut store = Store::new();
    let bad = Migration {
        version: 3,
        description: String::from("duplicate_phone_script"),
        statements: vec![
            Statement::InsertInventory(item()),
            Statement::InsertSale(sale("Ada", "0101")),
            Statement::InsertSale(sale("Ben", "0101")),
        ],
        kind: MigrationKind::Up,
    };
    let mut migrations = declared_migrations();
    migrations.push(bad);
    let expected = Err(MigrationFailure {
        version: 3,
        cause: StoreError::ConstraintViolation(Table::Sales),
    });
    assert_eq!(reconcile(&mut store, &migrations), expected);
    assert!(store.has_applied(DECLARED_VERSION));
    assert!(!store.has_applied(3));
    // the failing script is atomic: none of its statements took effect
    assert_eq!(store.inventory_count(), 0);
    assert_eq!(store.sale_count(), 0);
    // a second call retries version 3 and reports the same failure
    assert_eq!(reconcile(&mut store, &migrations), expected);
    assert!(!store.has_applied(3));
}

#[test]
fn empty_migration_set_changes_nothing() {
    let mut store = Store::new();
    assert_eq!(reconcile(&mut store, &Vec::new()), Ok(()));
    assert!(!store.table_exists(Table::Inventory));
    assert!(!store.table_exists(Table::Sales));
    assert!(!store.table_exists(Table::Users));
    assert_eq!(store.ledger_versions(), Vec::<u64>::new());
}

#[test]
fn statement_against_missing_table_fails() {
    let mut store = Store::new();
    assert_eq!(
        store.seed_user(&String::from("admin"), &String::from("admin")),
        Err(StoreError::MissingTable(Table::Users))
    );
    assert_eq!(
        store.insert_sale(&sale("Ada", "0101")),
        Err(StoreError::MissingTable(Table::Sales))
    );
    assert_eq!(store.insert_inventory(&item()), Err(StoreError::MissingTable(Table::Inventory)));
}

#[test]
fn seed_user_is_idempotent() {
    let mut store = Store::new();
    store.create_table(Table::Users);
    assert_eq!(store.seed_user(&String::from("admin"), &String::from("admin")), Ok(()));
    assert_eq!(store.seed_user(&String::from("admin"), &String::from("other")), Ok(()));
    assert_eq!(store.user_count(), 1);
    assert_eq!(store.password_of(&String::from("admin")), Some(String::from("admin")));
}

#[test]
fn create_table_is_idempotent() {
    let mut store = Store::new();
    store.create_table(Table::Inventory);
    store.create_table(Table::Inventory);
    assert!(store.table_exists(Table::Inventory));
    assert!(!store.table_exists(Table::Sales));
}

#[test]
fn later_version_applies_on_top_of_earlier_run() {
    let mut store = Store::new();
    assert_eq!(reconcile(&mut store, &declared_migrations()), Ok(()));
    let mut migrations = declared_migrations();
    migrations.push(Migration {
        version: 5,
        description: String::from("stock_one_item"),
        statements: vec![Statement::InsertInventory(item())],
        kind: MigrationKind::Up,
    });
    assert_eq!(reconcile(&mut store, &migrations), Ok(()));
    assert_eq!(store.ledger_versions(), vec![DECLARED_VERSION, 5]);
    assert_eq!(store.inventory_count(), 1);
}

#[test]
fn script_is_atomic() {
    let mut store = Store::new();
    store.create_table(Table::Inventory);
    store.create_table(Table::Sales);
    let script = vec![
        Statement::InsertInventory(item()),
        Statement::InsertSale(sale("Ada", "0101")),
        Statement::InsertSale(sale("Ben", "0101")),
    ];
    assert_eq!(store.apply_script(&script), Err(StoreError::ConstraintViolation(Table::Sales)));
    // nothing of the failed script took effect, not even its first statements
    assert_eq!(store.inventory_count(), 0);
    assert_eq!(store.sale_count(), 0);
    // the same leading statements succeed on their own
    assert_eq!(store.apply_statement(&Statement::InsertInventory(item())), Ok(()));
    assert_eq!(store.apply_statement(&Statement::InsertSale(sale("Ada", "0101"))), Ok(()));
    assert_eq!(store.inventory_count(), 1);
    assert_eq!(store.sale_count(), 1);
}

#[test]
fn duplicate_matches_the_source_store() {
    let mut store = Store::new();
    assert_eq!(reconcile(&mut store, &declared_migrations()), Ok(()));
    let copy = store.duplicate();
    assert_eq!(observable(&copy), observable(&store));
}

#[test]
fn password_of_absent_user_is_none() {
    let mut store = Store::new();
    assert_eq!(store.password_of(&String::from("admin")), None);
    assert_eq!(reconcile(&mut store, &declared_migrations()), Ok(()));
    assert_eq!(store.password_of(&String::from("nobody")), None);
}
