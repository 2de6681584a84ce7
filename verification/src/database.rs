//! The credential records and the store that owns them.
//!
//! The store lives in memory. Its caller keeps a file beside it: every
//! operation that may change the store leaves it marked `unsaved`, and the
//! caller rewrites the file and reports that with [`Database::mark_saved`]
//! before it does anything else.

use vstd::prelude::*;

verus! {

/// A record as the contracts see it.
pub struct PasswordView {
    pub id: nat,
    pub name: Seq<char>,
    pub content: Seq<char>,
}

/// One stored credential: a display name and a secret, tagged with the id
/// that the store gave it.
#[derive(Debug, Clone, PartialEq, Eq)]
pub struct Password {
    pub id: u64,
    pub name: String,
    pub content: String,
}

impl View for Password {
    type V = PasswordView;

    open spec fn view(&self) -> PasswordView {
        PasswordView { id: self.id as nat, name: self.name@, content: self.content@ }
    }
}

impl Password {
    /// A record with the given id, name and secret.
    pub fn new(id: u64, name: String, content: String) -> (password: Password)
        ensures
            password@ == (PasswordView { id: id as nat, name: name@, content: content@ }),
    {
        Password { id, name, content }
    }
}

/// The records of a vector, each by its view, in the vector's order.
pub open spec fn records_of(passwords: Seq<Password>) -> Seq<PasswordView> {
    passwords.map_values(|p: Password| p@)
}

/// A store as the contracts see it: the next id to hand out, and the records
/// in the order in which they were created.
pub struct DatabaseView {
    pub id_counter: nat,
    pub records: Seq<PasswordView>,
}

impl DatabaseView {
    /// The store before anything was created.
    pub open spec fn empty() -> DatabaseView {
        DatabaseView { id_counter: 0, records: Seq::empty() }
    }

    /// Whether some record carries `id`.
    pub open spec fn has_id(self, id: nat) -> bool {
        exists|i: int| 0 <= i < self.records.len() && (#[trigger] self.records[i]).id == id
    }

    /// Whether some record is called `name`.
    pub open spec fn has_name(self, name: Seq<char>) -> bool {
        exists|i: int| 0 <= i < self.records.len() && (#[trigger] self.records[i]).name == name
    }

    /// Whether `i` is the position of the first record that carries `id`.
    pub open spec fn is_first_with_id(self, id: nat, i: int) -> bool {
        &&& 0 <= i < self.records.len()
        &&& self.records[i].id == id
        &&& forall|j: int| 0 <= j < i ==> (#[trigger] self.records[j]).id != id
    }

    /// Whether `i` is the position of the first record called `name`.
    pub open spec fn is_first_named(self, name: Seq<char>, i: int) -> bool {
        &&& 0 <= i < self.records.len()
        &&& self.records[i].name == name
        &&& forall|j: int| 0 <= j < i ==> (#[trigger] self.records[j]).name != name
    }

    /// The position of the first record that carries `id`, if there is one.
    pub open spec fn first_with_id(self, id: nat) -> Option<int> {
        if exists|i: int| self.is_first_with_id(id, i) {
            Some(choose|i: int| self.is_first_with_id(id, i))
        } else {
            None
        }
    }

    /// The position of the first record called `name`, if there is one.
    pub open spec fn first_named(self, name: Seq<char>) -> Option<int> {
        if exists|i: int| self.is_first_named(name, i) {
            Some(choose|i: int| self.is_first_named(name, i))
        } else {
            None
        }
    }

    /// The record that `create` hands out: it takes the next id.
    pub open spec fn created(self, name: Seq<char>, content: Seq<char>) -> PasswordView {
        PasswordView { id: self.id_counter, name, content }
    }

    /// The store after a record was created: the new record stands last and
    /// the next id is one higher.
    pub open spec fn create(self, name: Seq<char>, content: Seq<char>) -> DatabaseView {
        DatabaseView {
            id_counter: self.id_counter + 1,
            records: self.records.push(self.created(name, content)),
        }
    }

    /// The store after the first record called `name` was replaced by
    /// `record`; the same store where no record is called so.
    pub open spec fn update(self, name: Seq<char>, record: PasswordView) -> DatabaseView {
        match self.first_named(name) {
            Some(i) => DatabaseView { records: self.records.update(i, record), ..self },
            None => self,
        }
    }

    /// The store after the first record that carries `id` was taken out, the
    /// records behind it moving up; the same store where none carries it.
    pub open spec fn delete(self, id: nat) -> DatabaseView {
        match self.first_with_id(id) {
            Some(i) => DatabaseView { records: self.records.remove(i), ..self },
            None => self,
        }
    }

    /// Whether every record carries an id that the store has already handed
    /// out, that is, one below the next id.
    pub open spec fn ids_below_counter(self) -> bool {
        forall|i: int| 0 <= i < self.records.len() ==> (#[trigger] self.records[i]).id < self.id_counter
    }

    /// Whether no two records carry the same id.
    pub open spec fn ids_distinct(self) -> bool {
        forall|i: int, j: int|
            0 <= i < j < self.records.len() ==> (#[trigger] self.records[i]).id != (
            #[trigger] self.records[j]).id
    }

    /// At most one position is the first that carries `id`.
    pub proof fn lemma_first_with_id_unique(self, id: nat, i: int, j: int)
        requires
            self.is_first_with_id(id, i),
            self.is_first_with_id(id, j),
        ensures
            i == j,
    {
        if i < j {
            assert(self.records[i].id != id);
        } else if j < i {
            assert(self.records[j].id != id);
        }
    }

    /// At most one position is the first called `name`.
    pub proof fn lemma_first_named_unique(self, name: Seq<char>, i: int, j: int)
        requires
            self.is_first_named(name, i),
            self.is_first_named(name, j),
        ensures
            i == j,
    {
        if i < j {
            assert(self.records[i].name != name);
        } else if j < i {
            assert(self.records[j].name != name);
        }
    }

    /// Below any record that carries `id` there is a first one.
    proof fn lemma_first_with_id_before(self, id: nat, k: int)
        requires
            0 <= k < self.records.len(),
            self.records[k].id == id,
        ensures
            exists|i: int| self.is_first_with_id(id, i),
        decreases k,
    {
        if forall|j: int| 0 <= j < k ==> (#[trigger] self.records[j]).id != id {
            assert(self.is_first_with_id(id, k));
        } else {
            let j = choose|j: int| 0 <= j < k && (#[trigger] self.records[j]).id == id;
            self.lemma_first_with_id_before(id, j);
        }
    }

    /// Below any record called `name` there is a first one.
    proof fn lemma_first_named_before(self, name: Seq<char>, k: int)
        requires
            0 <= k < self.records.len(),
            self.records[k].name == name,
        ensures
            exists|i: int| self.is_first_named(name, i),
        decreases k,
    {
        if forall|j: int| 0 <= j < k ==> (#[trigger] self.records[j]).name != name {
            assert(self.is_first_named(name, k));
        } else {
            let j = choose|j: int| 0 <= j < k && (#[trigger] self.records[j]).name == name;
            self.lemma_first_named_before(name, j);
        }
    }

    /// A first record that carries `id` is found exactly where some record
    /// carries it, and it is the first.
    pub proof fn lemma_first_with_id(self, id: nat)
        ensures
            self.first_with_id(id) is Some <==> self.has_id(id),
            self.first_with_id(id) matches Some(i) ==> self.is_first_with_id(id, i),
            forall|i: int| self.is_first_with_id(id, i) ==> self.first_with_id(id) == Some(i),
    {
        if self.has_id(id) {
            let k = choose|k: int| 0 <= k < self.records.len() && (#[trigger] self.records[k]).id == id;
            self.lemma_first_with_id_before(id, k);
        }
        assert forall|i: int| self.is_first_with_id(id, i) implies self.first_with_id(id) == Some(
            i,
        ) by {
            self.lemma_first_with_id_unique(id, i, self.first_with_id(id)->Some_0);
        }
    }

    /// A first record called `name` is found exactly where some record is
    /// called so, and it is the first.
    pub proof fn lemma_first_named(self, name: Seq<char>)
        ensures
            self.first_named(name) is Some <==> self.has_name(name),
            self.first_named(name) matches Some(i) ==> self.is_first_named(name, i),
            forall|i: int| self.is_first_named(name, i) ==> self.first_named(name) == Some(i),
    {
        if self.has_name(name) {
            let k = choose|k: int|
                0 <= k < self.records.len() && (#[trigger] self.records[k]).name == name;
            self.lemma_first_named_before(name, k);
        }
        assert forall|i: int| self.is_first_named(name, i) implies self.first_named(name) == Some(
            i,
        ) by {
            self.lemma_first_named_unique(name, i, self.first_named(name)->Some_0);
        }
    }

    /// Deleting by id takes out the first record that carries the id and no
    /// other: the records before it stay, those behind it move up by one, and
    /// the counter stays. Where no record carries the id, nothing changes.
    pub proof fn lemma_delete_first_match(self, id: nat)
        ensures
            self.delete(id).id_counter == self.id_counter,
            !self.has_id(id) ==> self.delete(id) == self,
            forall|i: int| #[trigger]
                self.is_first_with_id(id, i) ==> {
                    &&& self.delete(id).records.len() == self.records.len() - 1
                    &&& self.delete(id).records == self.records.remove(i)
                    &&& forall|j: int| 0 <= j < i ==> self.delete(id).records[j] == self.records[j]
                    &&& forall|j: int|
                        i <= j < self.records.len() - 1 ==> self.delete(id).records[j]
                            == self.records[j + 1]
                },
    {
        self.lemma_first_with_id(id);
    }

    /// Updating by name replaces the first record called so and no other, and
    /// the counter stays. Where no record is called so, nothing changes.
    pub proof fn lemma_update_first_match(self, name: Seq<char>, record: PasswordView)
        ensures
            self.update(name, record).id_counter == self.id_counter,
            self.update(name, record).records.len() == self.records.len(),
            !self.has_name(name) ==> self.update(name, record) == self,
            forall|i: int| #[trigger]
                self.is_first_named(name, i) ==> {
                    &&& self.update(name, record).records == self.records.update(i, record)
                    &&& self.update(name, record).records[i] == record
                    &&& forall|j: int|
                        0 <= j < self.records.len() && j != i ==> self.update(name, record).records[j]
                            == self.records[j]
                },
    {
        self.lemma_first_named(name);
    }

    /// Where no two records carry the same id, deleting by the id of the
    /// record at `i` takes out that very record.
    pub proof fn lemma_delete_at(self, i: int)
        requires
            self.ids_distinct(),
            0 <= i < self.records.len(),
        ensures
            self.delete(self.records[i].id).records == self.records.remove(i),
    {
        assert(self.is_first_with_id(self.records[i].id, i));
        self.lemma_delete_first_match(self.records[i].id);
    }
}

/// What the caller found where the store's file should be.
pub enum FileState {
    /// There is no file yet.
    Absent,
    /// The file is there and could not be opened or read; the text says why.
    Unreadable(String),
    /// The file was read and does not hold a store; the text says why.
    Malformed(String),
    /// The file was read and holds this counter and these records.
    Decoded { id_counter: u64, passwords: Vec<Password> },
}

/// Why no store could be made from a file.
#[derive(Debug, Clone, PartialEq, Eq)]
pub enum LoadError {
    /// The file could not be opened or read.
    Unreadable(String),
    /// The file does not hold a store.
    Malformed(String),
}

/// The records and the id generator.
#[derive(Debug, Clone, PartialEq, Eq)]
pub struct Database {
    /// The id that the next created record gets.
    pub id_counter: u64,
    /// The records, oldest first.
    pub passwords: Vec<Password>,
    /// Whether the store may differ from what its file holds.
    pub unsaved: bool,
}

impl View for Database {
    type V = DatabaseView;

    open spec fn view(&self) -> DatabaseView {
        DatabaseView { id_counter: self.id_counter as nat, records: records_of(self.passwords@) }
    }
}

impl Database {
    /// The store that a file stands for. A missing file stands for the empty
    /// store; a file that was decoded stands for what it holds; any other
    /// file stands for nothing, and the error carries the caller's text.
    pub fn new(file: FileState) -> (loaded: Result<Database, LoadError>)
        ensures
            match file {
                FileState::Absent => loaded is Ok && loaded->Ok_0@ == DatabaseView::empty()
                    && !loaded->Ok_0.unsaved,
                FileState::Unreadable(why) => loaded == Err::<Database, LoadError>(
                    LoadError::Unreadable(why),
                ),
                FileState::Malformed(why) => loaded == Err::<Database, LoadError>(
                    LoadError::Malformed(why),
                ),
                FileState::Decoded { id_counter, passwords } => loaded == Ok::<Database, LoadError>(
                    Database { id_counter, passwords, unsaved: false },
                ),
            },
    {
        match file {
            FileState::Absent => {
                let empty = Database { id_counter: 0, passwords: Vec::new(), unsaved: false };
                assert(empty@.records =~= DatabaseView::empty().records);
                Ok(empty)
            },
            FileState::Unreadable(why) => Err(LoadError::Unreadable(why)),
            FileState::Malformed(why) => Err(LoadError::Malformed(why)),
            FileState::Decoded { id_counter, passwords } => Ok(
                Database { id_counter, passwords, unsaved: false },
            ),
        }
    }

    /// Records that the file now holds what the store holds.
    pub fn mark_saved(&mut self)
        ensures
            final(self)@ == old(self)@,
            final(self).passwords == old(self).passwords,
            !final(self).unsaved,
    {
        self.unsaved = false;
    }

    /// Appends a record with the given name and secret under the next id and
    /// returns a copy of it. Neither text is looked at: both may be empty.
    pub fn create_password(&mut self, name: String, content: String) -> (created: Password)
        requires
            old(self).id_counter < u64::MAX,
        ensures
            final(self)@ == old(self)@.create(name@, content@),
            created@ == old(self)@.created(name@, content@),
            final(self).unsaved,
    {
        let id: u64 = self.id_counter;
        let created = Password { id, name: name.clone(), content: content.clone() };
        self.passwords.push(Password { id, name, content });
        self.id_counter = id + 1;
        self.unsaved = true;
        assert(final(self)@.records =~= old(self)@.create(name@, content@).records);
        created
    }

    /// Puts `new_password` in the place of the first record called `name`.
    /// Without such a record the store keeps its records; it counts as
    /// unsaved either way.
    pub fn update_password(&mut self, name: String, new_password: Password)
        ensures
            final(self)@ == old(self)@.update(name@, new_password@),
            final(self).unsaved,
    {
        self.unsaved = true;
        let n: usize = self.passwords.len();
        let mut i: usize = 0;
        while i < n
            invariant
                i <= n,
                n == self.passwords.len(),
                self.passwords == old(self).passwords,
                self.id_counter == old(self).id_counter,
                self.unsaved,
                forall|j: int| 0 <= j < i ==> (#[trigger] self.passwords@[j]).name@ != name@,
            decreases n - i,
        {
            if self.passwords[i].name == name {
                proof {
                    let before = old(self)@;
                    assert(before.is_first_named(name@, i as int));
                    let k = before.first_named(name@)->Some_0;
                    before.lemma_first_named_unique(name@, i as int, k);
                }
                self.passwords[i] = new_password;
                assert(final(self)@.records =~= old(self)@.records.update(i as int, new_password@));
                return ;
            }
            i = i + 1;
        }
        proof {
            let before = old(self)@;
            assert forall|k: int| !before.is_first_named(name@, k) by {
                if 0 <= k < before.records.len() {
                    assert(self.passwords@[k].name@ != name@);
                }
            }
        }
    }

    /// Takes out the first record that carries `id`; the records behind it
    /// move up. Without such a record the store keeps its records; it counts
    /// as unsaved either way.
    pub fn delete_password(&mut self, id: u64)
        ensures
            final(self)@ == old(self)@.delete(id as nat),
            final(self).unsaved,
    {
        self.unsaved = true;
        let n: usize = self.passwords.len();
        let mut i: usize = 0;
        while i < n
            invariant
                i <= n,
                n == self.passwords.len(),
                self.passwords == old(self).passwords,
                self.id_counter == old(self).id_counter,
                self.unsaved,
                forall|j: int| 0 <= j < i ==> (#[trigger] self.passwords@[j]).id != id,
            decreases n - i,
        {
            if self.passwords[i].id == id {
                proof {
                    let before = old(self)@;
                    assert(before.is_first_with_id(id as nat, i as int));
                    let k = before.first_with_id(id as nat)->Some_0;
                    before.lemma_first_with_id_unique(id as nat, i as int, k);
                }
                self.passwords.remove(i);
                assert(final(self)@.records =~= old(self)@.records.remove(i as int));
                return ;
            }
            i = i + 1;
        }
        proof {
            let before = old(self)@;
            assert forall|k: int| !before.is_first_with_id(id as nat, k) by {
                if 0 <= k < before.records.len() {
                    assert(self.passwords@[k].id != id);
                }
            }
        }
    }

    /// The id of the record at `index`, if the store has that many records.
    pub fn id_at(&self, index: usize) -> (id: Option<u64>)
        ensures
            index < self@.records.len() ==> id == Some(self.passwords@[index as int].id),
            index >= self@.records.len() ==> id is None,
    {
        if index < self.passwords.len() {
            Some(self.passwords[index].id)
        } else {
            None
        }
    }
}

} // verus!
