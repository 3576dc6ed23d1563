use vstd::prelude::*;

verus! {

/// What a stored command is to the contracts: its id, its text, its time.
pub struct EntryModel {
    pub id: u64,
    pub cmd: Seq<char>,
    pub created_at: i64,
}

/// One stored command. `id` orders entries by insertion and is never reused;
/// `created_at` is the insertion time in seconds since the epoch.
#[derive(Debug)]
pub struct MemoEntry {
    pub id: u64,
    pub cmd: String,
    pub created_at: i64,
}

impl View for MemoEntry {
    type V = EntryModel;

    open spec fn view(&self) -> EntryModel {
        EntryModel { id: self.id, cmd: self.cmd@, created_at: self.created_at }
    }
}

impl MemoEntry {
    pub fn new(id: u64, cmd: String, created_at: i64) -> (r: Self)
        ensures
            r@ == (EntryModel { id, cmd: cmd@, created_at }),
    {
        MemoEntry { id, cmd, created_at }
    }

    /// A copy of this entry with the same id, text and time.
    pub fn duplicate(&self) -> (r: Self)
        ensures
            r@ == self@,
    {
        MemoEntry { id: self.id, cmd: self.cmd.clone(), created_at: self.created_at }
    }
}

} // verus!
