//! The application's local relational store, modelled at the level the
//! bootstrapper observes it: which of the three declared tables exist, the
//! rows they hold, and the ledger of applied migration versions.
//!
//! Surrogate `id` columns are the underlying store's own bookkeeping (a row's
//! position in its append-only table); the model identifies a row by its
//! position and does not carry the ids.

use vstd::prelude::*;

verus! {

/// One of the three tables the schema declares.
#[derive(Clone, Copy, PartialEq, Eq, Structural, Debug)]
pub enum Table {
    Inventory,
    Sales,
    Users,
}

/// Why a statement could not be executed against the store.
#[derive(Clone, Copy, PartialEq, Eq, Structural, Debug)]
pub enum StoreError {
    /// The statement addressed a table that does not exist.
    MissingTable(Table),
    /// The statement would violate a UNIQUE constraint of the table.
    ConstraintViolation(Table),
}

/// A row of the `inventory` table.
pub struct InventoryItem {
    pub item_type: String,
    pub color: String,
    pub size: i64,
    pub quantity: i64,
    pub price: i64,
}

/// Mathematical image of an inventory row.
pub struct InventoryItemModel {
    pub item_type: Seq<char>,
    pub color: Seq<char>,
    pub size: i64,
    pub quantity: i64,
    pub price: i64,
}

impl View for InventoryItem {
    type V = InventoryItemModel;

    open spec fn view(&self) -> InventoryItemModel {
        InventoryItemModel {
            item_type: self.item_type@,
            color: self.color@,
            size: self.size,
            quantity: self.quantity,
            price: self.price,
        }
    }
}

/// A row of the `sales` table. The descriptive attributes are denormalised
/// copies of an inventory item's, with `size` stored as text as the schema
/// declares it.
pub struct SaleRecord {
    pub name: String,
    pub phone: String,
    pub address: String,
    pub item_type: String,
    pub color: String,
    pub size: String,
    pub quantity: i64,
}

/// Mathematical image of a sales row.
pub struct SaleRecordModel {
    pub name: Seq<char>,
    pub phone: Seq<char>,
    pub address: Seq<char>,
    pub item_type: Seq<char>,
    pub color: Seq<char>,
    pub size: Seq<char>,
    pub quantity: i64,
}

impl View for SaleRecord {
    type V = SaleRecordModel;

    open spec fn view(&self) -> SaleRecordModel {
        SaleRecordModel {
            name: self.name@,
            phone: self.phone@,
            address: self.address@,
            item_type: self.item_type@,
            color: self.color@,
            size: self.size@,
            quantity: self.quantity,
        }
    }
}

/// A row of the `users` table.
pub struct UserAccount {
    pub username: String,
    pub password: String,
}

/// Mathematical image of a users row.
pub struct UserAccountModel {
    pub username: Seq<char>,
    pub password: Seq<char>,
}

impl View for UserAccount {
    type V = UserAccountModel;

    open spec fn view(&self) -> UserAccountModel {
        UserAccountModel { username: self.username@, password: self.password@ }
    }
}

/// One entry of the bootstrapper's ledger: a migration version that was
/// applied, with its human-readable description.
pub struct MigrationRecord {
    pub version: u64,
    pub description: String,
}

/// Mathematical image of a ledger entry.
pub struct MigrationRecordModel {
    pub version: u64,
    pub description: Seq<char>,
}

impl View for MigrationRecord {
    type V = MigrationRecordModel;

    open spec fn view(&self) -> MigrationRecordModel {
        MigrationRecordModel { version: self.version, description: self.description@ }
    }
}

/// Mathematical image of the whole store.
#[verifier::ext_equal]
pub struct StoreModel {
    pub inventory_exists: bool,
    pub sales_exists: bool,
    pub users_exists: bool,
    pub inventory: Seq<InventoryItemModel>,
    pub sales: Seq<SaleRecordModel>,
    pub users: Seq<UserAccountModel>,
    pub ledger: Seq<MigrationRecordModel>,
}

/// True when some row of `users` carries the given username.
pub open spec fn has_username(users: Seq<UserAccountModel>, username: Seq<char>) -> bool {
    exists|i: int| 0 <= i < users.len() && users[i].username == username
}

/// True when some row of `sales` carries the given phone number.
pub open spec fn has_phone(sales: Seq<SaleRecordModel>, phone: Seq<char>) -> bool {
    exists|i: int| 0 <= i < sales.len() && sales[i].phone == phone
}

/// The password of the first `users` row carrying the given username, if any.
pub open spec fn password_lookup(users: Seq<UserAccountModel>, username: Seq<char>) -> Option<
    Seq<char>,
>
    decreases users.len(),
{
    if users.len() == 0 {
        None
    } else if users[0].username == username {
        Some(users[0].password)
    } else {
        password_lookup(users.drop_first(), username)
    }
}

impl StoreModel {
    /// A store as created on first run: no tables, no rows, an empty ledger.
    pub open spec fn init() -> StoreModel {
        StoreModel {
            inventory_exists: false,
            sales_exists: false,
            users_exists: false,
            inventory: Seq::empty(),
            sales: Seq::empty(),
            users: Seq::empty(),
            ledger: Seq::empty(),
        }
    }

    /// Whether the given table exists.
    pub open spec fn table_present(self, t: Table) -> bool {
        match t {
            Table::Inventory => self.inventory_exists,
            Table::Sales => self.sales_exists,
            Table::Users => self.users_exists,
        }
    }

    /// Whether the ledger records the given version as applied.
    pub open spec fn applied(self, version: u64) -> bool {
        exists|i: int| 0 <= i < self.ledger.len() && self.ledger[i].version == version
    }

    /// Well-formedness: the UNIQUE constraints of the schema hold, the ledger
    /// never records a version twice, and a table holding rows exists.
    pub open spec fn wf(self) -> bool {
        &&& (forall|i: int, j: int|
            0 <= i < j < self.users.len() ==> self.users[i].username != self.users[j].username)
        &&& (forall|i: int, j: int|
            0 <= i < j < self.sales.len() ==> self.sales[i].phone != self.sales[j].phone)
        &&& (forall|i: int, j: int|
            0 <= i < j < self.ledger.len() ==> self.ledger[i].version != self.ledger[j].version)
        &&& (self.inventory.len() > 0 ==> self.inventory_exists)
        &&& (self.sales.len() > 0 ==> self.sales_exists)
        &&& (self.users.len() > 0 ==> self.users_exists)
    }
}

/// Effect of `CREATE TABLE IF NOT EXISTS`: the table exists afterwards and
/// nothing else changes; re-creation is a no-op.
pub open spec fn create_table_m(s: StoreModel, t: Table) -> StoreModel {
    match t {
        Table::Inventory => StoreModel { inventory_exists: true, ..s },
        Table::Sales => StoreModel { sales_exists: true, ..s },
        Table::Users => StoreModel { users_exists: true, ..s },
    }
}

/// Effect of the guarded seed insert (`INSERT ... WHERE NOT EXISTS`): a users
/// row is added only when no row carries the username yet.
pub open spec fn seed_user_m(s: StoreModel, username: Seq<char>, password: Seq<char>) -> Result<
    StoreModel,
    StoreError,
> {
    if !s.users_exists {
        Err(StoreError::MissingTable(Table::Users))
    } else if has_username(s.users, username) {
        Ok(s)
    } else {
        Ok(StoreModel { users: s.users.push(UserAccountModel { username, password }), ..s })
    }
}

/// Effect of inserting a sales row: rejected when another row already carries
/// the phone number (the schema's UNIQUE constraint).
pub open spec fn insert_sale_m(s: StoreModel, sale: SaleRecordModel) -> Result<
    StoreModel,
    StoreError,
> {
    if !s.sales_exists {
        Err(StoreError::MissingTable(Table::Sales))
    } else if has_phone(s.sales, sale.phone) {
        Err(StoreError::ConstraintViolation(Table::Sales))
    } else {
        Ok(StoreModel { sales: s.sales.push(sale), ..s })
    }
}

/// Effect of inserting an inventory row.
pub open spec fn insert_inventory_m(s: StoreModel, item: InventoryItemModel) -> Result<
    StoreModel,
    StoreError,
> {
    if !s.inventory_exists {
        Err(StoreError::MissingTable(Table::Inventory))
    } else {
        Ok(StoreModel { inventory: s.inventory.push(item), ..s })
    }
}

/// Effect of recording a version in the ledger.
pub open spec fn record_applied_m(s: StoreModel, version: u64, description: Seq<char>) -> StoreModel {
    StoreModel {
        ledger: s.ledger.push(MigrationRecordModel { version, description }),
        ..s
    }
}

/// The application's local store.
pub struct Store {
    inventory_exists: bool,
    sales_exists: bool,
    users_exists: bool,
    inventory: Vec<InventoryItem>,
    sales: Vec<SaleRecord>,
    users: Vec<UserAccount>,
    ledger: Vec<MigrationRecord>,
}

impl View for Store {
    type V = StoreModel;

    closed spec fn view(&self) -> StoreModel {
        StoreModel {
            inventory_exists: self.inventory_exists,
            sales_exists: self.sales_exists,
            users_exists: self.users_exists,
            inventory: self.inventory@.map_values(|r: InventoryItem| r@),
            sales: self.sales@.map_values(|r: SaleRecord| r@),
            users: self.users@.map_values(|r: UserAccount| r@),
            ledger: self.ledger@.map_values(|r: MigrationRecord| r@),
        }
    }
}

impl Store {
    /// A fresh store, as created the first time the database file is opened.
    pub fn new() -> (s: Store)
        ensures
            s@ == StoreModel::init(),
    {
        let s = Store {
            inventory_exists: false,
            sales_exists: false,
            users_exists: false,
            inventory: Vec::new(),
            sales: Vec::new(),
            users: Vec::new(),
            ledger: Vec::new(),
        };
        proof {
            assert(s@ =~= StoreModel::init());
        }
        s
    }

    /// Whether the given table exists.
    pub fn table_exists(&self, t: Table) -> (r: bool)
        ensures
            r == self@.table_present(t),
    {
        match t {
            Table::Inventory => self.inventory_exists,
            Table::Sales => self.sales_exists,
            Table::Users => self.users_exists,
        }
    }

    /// `CREATE TABLE IF NOT EXISTS`: idempotent, never fails.
    pub fn create_table(&mut self, t: Table)
        ensures
            final(self)@ == create_table_m(old(self)@, t),
    {
        match t {
            Table::Inventory => {
                self.inventory_exists = true;
            },
            Table::Sales => {
                self.sales_exists = true;
            },
            Table::Users => {
                self.users_exists = true;
            },
        }
        proof {
            assert(self@ =~= create_table_m(old(self)@, t));
        }
    }

    /// Whether some users row carries the given username.
    pub fn username_taken(&self, username: &String) -> (r: bool)
        ensures
            r == has_username(self@.users, username@),
    {
        let mut i: usize = 0;
        while i < self.users.len()
            invariant
                i <= self.users.len(),
                forall|k: int| 0 <= k < i ==> self@.users[k].username != username@,
            decreases self.users.len() - i,
        {
            if self.users[i].username == *username {
                proof {
                    assert(self@.users[i as int].username == username@);
                }
                return true;
            }
            i += 1;
        }
        false
    }

    /// Whether some sales row carries the given phone number.
    pub fn phone_taken(&self, phone: &String) -> (r: bool)
        ensures
            r == has_phone(self@.sales, phone@),
    {
        let mut i: usize = 0;
        while i < self.sales.len()
            invariant
                i <= self.sales.len(),
                forall|k: int| 0 <= k < i ==> self@.sales[k].phone != phone@,
            decreases self.sales.len() - i,
        {
            if self.sales[i].phone == *phone {
                proof {
                    assert(self@.sales[i as int].phone == phone@);
                }
                return true;
            }
            i += 1;
        }
        false
    }

    /// The guarded seed insert: adds a users row only when the username is
    /// absent, so an existing account — whatever its password — is kept.
    pub fn seed_user(&mut self, username: &String, password: &String) -> (r: Result<
        (),
        StoreError,
    >)
        ensures
            (match seed_user_m(old(self)@, username@, password@) {
                Ok(m) => r is Ok && final(self)@ == m,
                Err(e) => r == Err::<(), StoreError>(e) && final(self)@ == old(self)@,
            }),
    {
        if !self.users_exists {
            return Err(StoreError::MissingTable(Table::Users));
        }
        if self.username_taken(username) {
            return Ok(());
        }
        self.users.push(UserAccount { username: username.clone(), password: password.clone() });
        proof {
            assert(self@ =~= (match seed_user_m(old(self)@, username@, password@) {
                Ok(m) => m,
                Err(_) => old(self)@,
            }));
        }
        Ok(())
    }

    /// Inserts a sales row; fails with a uniqueness violation when another
    /// row already carries the phone number.
    pub fn insert_sale(&mut self, sale: &SaleRecord) -> (r: Result<(), StoreError>)
        ensures
            (match insert_sale_m(old(self)@, sale@) {
                Ok(m) => r is Ok && final(self)@ == m,
                Err(e) => r == Err::<(), StoreError>(e) && final(self)@ == old(self)@,
            }),
    {
        if !self.sales_exists {
            return Err(StoreError::MissingTable(Table::Sales));
        }
        if self.phone_taken(&sale.phone) {
            return Err(StoreError::ConstraintViolation(Table::Sales));
        }
        self.sales.push(sale.dup());
        proof {
            assert(self@ =~= (match insert_sale_m(old(self)@, sale@) {
                Ok(m) => m,
                Err(_) => old(self)@,
            }));
        }
        Ok(())
    }

    /// Inserts an inventory row.
    pub fn insert_inventory(&mut self, item: &InventoryItem) -> (r: Result<(), StoreError>)
        ensures
            (match insert_inventory_m(old(self)@, item@) {
                Ok(m) => r is Ok && final(self)@ == m,
                Err(e) => r == Err::<(), StoreError>(e) && final(self)@ == old(self)@,
            }),
    {
        if !self.inventory_exists {
            return Err(StoreError::MissingTable(Table::Inventory));
        }
        self.inventory.push(item.dup());
        proof {
            assert(self@ =~= (match insert_inventory_m(old(self)@, item@) {
                Ok(m) => m,
                Err(_) => old(self)@,
            }));
        }
        Ok(())
    }

    /// Whether the ledger records the given version as applied.
    pub fn has_applied(&self, version: u64) -> (r: bool)
        ensures
            r == self@.applied(version),
    {
        let mut i: usize = 0;
        while i < self.ledger.len()
            invariant
                i <= self.ledger.len(),
                forall|k: int| 0 <= k < i ==> self@.ledger[k].version != version,
            decreases self.ledger.len() - i,
        {
            if self.ledger[i].version == version {
                proof {
                    assert(self@.ledger[i as int].version == version);
                }
                return true;
            }
            i += 1;
        }
        false
    }

    /// Records a version in the ledger. The ledger is the bootstrapper's own
    /// bookkeeping: only reconciling writes it.
    pub(crate) fn record_applied(&mut self, version: u64, description: &String)
        ensures
            final(self)@ == record_applied_m(old(self)@, version, description@),
    {
        self.ledger.push(MigrationRecord { version, description: description.clone() });
        proof {
            assert(self@ =~= record_applied_m(old(self)@, version, description@));
        }
    }

    /// A deep copy: the scratch store a script runs against before its
    /// changes are committed.
    pub fn duplicate(&self) -> (r: Store)
        ensures
            r@ == self@,
    {
        let r = Store {
            inventory_exists: self.inventory_exists,
            sales_exists: self.sales_exists,
            users_exists: self.users_exists,
            inventory: dup_vec(&self.inventory),
            sales: dup_vec(&self.sales),
            users: dup_vec(&self.users),
            ledger: dup_vec(&self.ledger),
        };
        proof {
            assert(r@ =~= self@);
        }
        r
    }

    /// How many inventory rows the store holds.
    pub fn inventory_count(&self) -> (n: usize)
        ensures
            n == self@.inventory.len(),
    {
        self.inventory.len()
    }

    /// How many sales rows the store holds.
    pub fn sale_count(&self) -> (n: usize)
        ensures
            n == self@.sales.len(),
    {
        self.sales.len()
    }

    /// How many users rows the store holds.
    pub fn user_count(&self) -> (n: usize)
        ensures
            n == self@.users.len(),
    {
        self.users.len()
    }

    /// The password of the first users row carrying the given username.
    pub fn password_of(&self, username: &String) -> (r: Option<String>)
        ensures
            (match password_lookup(self@.users, username@) {
                Some(p) => r is Some && r->Some_0@ == p,
                None => r is None,
            }),
    {
        proof {
            assert(self@.users.skip(0) =~= self@.users);
        }
        let mut i: usize = 0;
        while i < self.users.len()
            invariant
                i <= self.users.len(),
                password_lookup(self@.users, username@) == password_lookup(
                    self@.users.skip(i as int),
                    username@,
                ),
            decreases self.users.len() - i,
        {
            proof {
                assert(self@.users.skip(i as int)[0] == self@.users[i as int]);
                assert(self@.users.skip(i as int).drop_first() =~= self@.users.skip(i as int + 1));
            }
            if self.users[i].username == *username {
                return Some(self.users[i].password.clone());
            }
            i += 1;
        }
        proof {
            assert(self@.users.skip(self.users.len() as int) =~= Seq::<UserAccountModel>::empty());
        }
        None
    }

    /// The applied versions, in the order the ledger recorded them.
    pub fn ledger_versions(&self) -> (r: Vec<u64>)
        ensures
            r@ == self@.ledger.map_values(|e: MigrationRecordModel| e.version),
    {
        let mut r: Vec<u64> = Vec::new();
        let mut i: usize = 0;
        while i < self.ledger.len()
            invariant
                i <= self.ledger.len(),
                r@ == self@.ledger.map_values(|e: MigrationRecordModel| e.version).take(i as int),
            decreases self.ledger.len() - i,
        {
            r.push(self.ledger[i].version);
            i += 1;
            proof {
                assert(r@ =~= self@.ledger.map_values(|e: MigrationRecordModel| e.version).take(
                    i as int,
                ));
            }
        }
        proof {
            assert(self@.ledger.map_values(|e: MigrationRecordModel| e.version).take(
                self.ledger.len() as int,
            ) =~= self@.ledger.map_values(|e: MigrationRecordModel| e.version));
        }
        r
    }
}

/// A value that can hand out a copy whose mathematical image is its own.
pub trait Dup: View + Sized {
    /// A copy with the same view.
    fn dup(&self) -> (r: Self)
        ensures
            r@ == self@,
    ;
}

impl Dup for InventoryItem {
    fn dup(&self) -> (r: InventoryItem) {
        InventoryItem {
            item_type: self.item_type.clone(),
            color: self.color.clone(),
            size: self.size,
            quantity: self.quantity,
            price: self.price,
        }
    }
}

impl Dup for SaleRecord {
    fn dup(&self) -> (r: SaleRecord) {
        SaleRecord {
            name: self.name.clone(),
            phone: self.phone.clone(),
            address: self.address.clone(),
            item_type: self.item_type.clone(),
            color: self.color.clone(),
            size: self.size.clone(),
            quantity: self.quantity,
        }
    }
}

impl Dup for UserAccount {
    fn dup(&self) -> (r: UserAccount) {
        UserAccount { username: self.username.clone(), password: self.password.clone() }
    }
}

impl Dup for MigrationRecord {
    fn dup(&self) -> (r: MigrationRecord) {
        MigrationRecord { version: self.version, description: self.description.clone() }
    }
}

/// Copies a vector element by element, keeping every element's view.
pub fn dup_vec<T: Dup>(v: &Vec<T>) -> (r: Vec<T>)
    ensures
        r@.len() == v@.len(),
        forall|i: int| 0 <= i < v@.len() ==> r@[i]@ == v@[i]@,
{
    let mut r: Vec<T> = Vec::new();
    let mut i: usize = 0;
    while i < v.len()
        invariant
            i <= v.len(),
            r@.len() == i,
            forall|k: int| 0 <= k < i ==> r@[k]@ == v@[k]@,
        decreases v.len() - i,
    {
        r.push(v[i].dup());
        i += 1;
    }
    r
}

} // verus!
