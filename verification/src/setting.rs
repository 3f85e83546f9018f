//! Settings, kept under a key.
use vstd::prelude::*;

verus! {

/// A setting, and the row of the database that it is kept in, if it is.
#[derive(Debug)]
pub struct Setting {
    pub rowid: Option<i64>,
    pub key: String,
    pub value: String,
}

/// How a setting is written to the database.
#[derive(Clone, Copy, Debug, PartialEq, Eq, Structural)]
pub enum Write {
    /// The row that it came from is written over.
    Update,
    /// It gets a new row.
    Insert,
}

/// What the setting is, where `found` is what the database has under the key.
pub open spec fn gotten(r: Setting, found: Option<Setting>, key: Seq<char>) -> bool {
    match found {
        Some(setting) => r == setting,
        None => r.rowid is None && r.key@ == key && r.value@ == Seq::<char>::empty(),
    }
}

/// How the setting is written.
pub open spec fn written_by(setting: Setting) -> Write {
    if setting.rowid is Some {
        Write::Update
    } else {
        Write::Insert
    }
}

impl Setting {
    /// The setting of that key, where `found` is what the database has under it:
    /// an empty one, which is in no row, if that is nothing.
    pub fn get(found: Option<Setting>, key: &str) -> (r: Setting)
        ensures
            gotten(r, found, key@),
            found is Some ==> r == found->0,
            found is None ==> r.rowid is None && r.key@ == key@ && r.value@.len() == 0,
    {
        match found {
            Some(setting) => setting,
            None => Setting { rowid: None, key: key.to_owned(), value: String::new() },
        }
    }

    /// How to write this setting to the database.
    pub fn save(&self) -> (r: Write)
        ensures
            r == written_by(*self),
            r == Write::Update <==> self.rowid is Some,
            r == Write::Insert <==> self.rowid is None,
    {
        if self.rowid.is_some() {
            Write::Update
        } else {
            Write::Insert
        }
    }
}

/// The rows of the table of settings: a key and a value each.
pub type Rows = Map<i64, (Seq<char>, Seq<char>)>;

/// The rows after a setting was written, where a new row would be the row `new`.
pub open spec fn rows_after(rows: Rows, setting: Setting, new: i64) -> Rows {
    match written_by(setting) {
        Write::Update => if rows.dom().contains(setting.rowid->0) {
            rows.insert(setting.rowid->0, (setting.key@, setting.value@))
        } else {
            rows
        },
        Write::Insert => rows.insert(new, (setting.key@, setting.value@)),
    }
}

/// The setting is what one row with that key holds, or there is no such row.
pub open spec fn found_in(rows: Rows, key: Seq<char>, found: Option<Setting>) -> bool {
    match found {
        Some(setting) => {
            &&& setting.rowid is Some
            &&& rows.dom().contains(setting.rowid->0)
            &&& rows[setting.rowid->0] == (setting.key@, setting.value@)
            &&& setting.key@ == key
        },
        None => forall|row: i64| #[trigger] rows.dom().contains(row) ==> rows[row].0 != key,
    }
}

/// A setting that no row has yet is empty. Given a value and saved, it gets a row
/// of its own, and comes back with that value and that row.
pub proof fn law_saved_setting_comes_back(
    rows: Rows,
    key: Seq<char>,
    first: Setting,
    saved: Setting,
    new: i64,
    found: Option<Setting>,
    r: Setting,
)
    requires
        found_in(rows, key, None),
        gotten(first, None, key),
        saved.rowid == first.rowid,
        saved.key@ == first.key@,
        !rows.dom().contains(new),
        found_in(rows_after(rows, saved, new), key, found),
        gotten(r, found, key),
    ensures
        first.value@ == Seq::<char>::empty(),
        written_by(saved) == Write::Insert,
        r.rowid == Some(new),
        r.key@ == key,
        r.value@ == saved.value@,
        written_by(r) == Write::Update,
{
    let after = rows_after(rows, saved, new);
    assert(after.dom().contains(new) && after[new].0 == key);
    if r.rowid->0 != new {
        assert(rows.dom().contains(r.rowid->0));
    }
}

/// A setting that is in a row is written over that row: it comes back with its
/// new value where no other row has its key, and no row comes or goes.
pub proof fn law_saving_again_updates(
    rows: Rows,
    key: Seq<char>,
    first: Setting,
    saved: Setting,
    new: i64,
    found: Option<Setting>,
    r: Setting,
)
    requires
        found_in(rows, key, Some(first)),
        forall|row: i64| #[trigger]
            rows.dom().contains(row) && rows[row].0 == key ==> row == first.rowid->0,
        saved.rowid == first.rowid,
        saved.key@ == first.key@,
        found_in(rows_after(rows, saved, new), key, found),
        gotten(r, found, key),
    ensures
        written_by(saved) == Write::Update,
        rows_after(rows, saved, new).dom() == rows.dom(),
        r.rowid == first.rowid,
        r.key@ == key,
        r.value@ == saved.value@,
{
    let after = rows_after(rows, saved, new);
    assert(after.dom() =~= rows.dom());
    assert(after.dom().contains(first.rowid->0) && after[first.rowid->0].0 == key);
    assert(rows.dom().contains(r.rowid->0));
}

} // verus!
