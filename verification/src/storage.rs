//! Where an app keeps its state between runs, and what it keeps there.
//!
//! Reading and writing the files is the caller's business. Here stand the
//! rules: how the folder of an app is named on each system, and when the
//! store has something new to save.

use vstd::prelude::*;
use vstd::string::*;

verus! {

/// The operating system that the app runs on.
#[derive(Clone, Copy, Debug, PartialEq, Eq, Structural)]
pub enum OperatingSystem {
    /// None of the systems below.
    Unknown,
    /// Android.
    Android,
    /// Apple iPhone OS.
    IOS,
    /// Linux or another Unix.
    Nix,
    /// macOS.
    Mac,
    /// Windows.
    Windows,
}

/// The directory of the machine below which the folder of an app is placed.
#[derive(Clone, Copy, Debug, PartialEq, Eq, Structural)]
pub enum StorageRoot {
    /// The data directory of the user: `XDG_DATA_HOME` where that is set to
    /// an absolute path, else `.local/share` below the home directory.
    DataHome,
    /// The home directory of the user.
    Home,
    /// The roaming application data directory of the user.
    RoamingAppData,
}

/// Where the state of an app is kept: a root directory and the folders to
/// descend from it, the outermost first.
pub struct StoragePlace {
    pub root: StorageRoot,
    pub folders: Vec<String>,
}

/// Whether `c` is one of the five ASCII whitespace characters: space, tab,
/// line feed, form feed and carriage return.
pub open spec fn is_ascii_whitespace(c: char) -> bool {
    c == ' ' || c == '\t' || c == '\n' || c == '\x0C' || c == '\r'
}

/// `text` without its ASCII whitespace.
pub open spec fn without_whitespace(text: Seq<char>) -> Seq<char>
    decreases text.len(),
{
    if text.len() == 0 {
        text
    } else if is_ascii_whitespace(text.last()) {
        without_whitespace(text.drop_last())
    } else {
        without_whitespace(text.drop_last()).push(text.last())
    }
}

/// `text` with a hyphen in place of each ASCII whitespace character.
pub open spec fn whitespace_dashed(text: Seq<char>) -> Seq<char> {
    Seq::new(
        text.len(),
        |i: int|
            if is_ascii_whitespace(text[i]) {
                '-'
            } else {
                text[i]
            },
    )
}

/// The lower-case form of `text` that `str::to_lowercase` gives.
pub uninterp spec fn lowercased(text: Seq<char>) -> Seq<char>;

/// `str::to_lowercase` maps each character to its lower-case form as Unicode
/// defines it. The contract only names that result.
#[verifier::external_body]
fn to_lowercase(text: &str) -> (lower: String)
    ensures
        lower@ == lowercased(text@),
{
    text.to_lowercase()
}

/// `String::push` appends one character.
#[verifier::external_body]
fn push_char(text: &mut String, c: char)
    ensures
        final(text)@ == old(text)@.push(c),
{
    text.push(c)
}

fn char_is_ascii_whitespace(c: char) -> (whitespace: bool)
    ensures
        whitespace == is_ascii_whitespace(c),
{
    c == ' ' || c == '\t' || c == '\n' || c == '\x0C' || c == '\r'
}

/// `text` without its ASCII whitespace.
pub fn remove_whitespace(text: &str) -> (stripped: String)
    ensures
        stripped@ == without_whitespace(text@),
{
    let mut stripped = String::new();
    let ghost all = text@;
    for c in it: text.chars()
        invariant
            it.seq() == all,
            stripped@ == without_whitespace(all.take(it.index() as int)),
    {
        assert(all.take(it.index() + 1).drop_last() =~= all.take(it.index() as int));
        if !char_is_ascii_whitespace(c) {
            push_char(&mut stripped, c);
        }
    }
    assert(all.take(all.len() as int) =~= all);
    stripped
}

/// `text` with a hyphen in place of each ASCII whitespace character.
pub fn dash_whitespace(text: &str) -> (dashed: String)
    ensures
        dashed@ == whitespace_dashed(text@),
{
    let mut dashed = String::new();
    let ghost all = text@;
    for c in it: text.chars()
        invariant
            it.seq() == all,
            dashed@ == whitespace_dashed(all.take(it.index() as int)),
    {
        if char_is_ascii_whitespace(c) {
            push_char(&mut dashed, '-');
        } else {
            push_char(&mut dashed, c);
        }
    }
    dashed
}

/// The folders that [`storage_place`] gives for `app_id` on `os`.
pub open spec fn storage_folders(os: OperatingSystem, app_id: Seq<char>) -> Seq<Seq<char>> {
    match os {
        OperatingSystem::Nix => seq![without_whitespace(lowercased(app_id))],
        OperatingSystem::Mac => seq![
            "Library"@,
            "Application Support"@,
            whitespace_dashed(app_id),
        ],
        OperatingSystem::Windows => seq![app_id, "data"@],
        _ => Seq::empty(),
    }
}

/// The root that [`storage_place`] gives on `os`, where it gives a place.
pub open spec fn storage_root(os: OperatingSystem) -> Option<StorageRoot> {
    match os {
        OperatingSystem::Nix => Some(StorageRoot::DataHome),
        OperatingSystem::Mac => Some(StorageRoot::Home),
        OperatingSystem::Windows => Some(StorageRoot::RoamingAppData),
        _ => None,
    }
}

/// Where the state of the app `app_id` is kept on `os`; `None` on a system
/// that has no such place.
///
/// * Linux: `DataHome/app_id`, in lower case and without whitespace
/// * macOS: `Home/Library/Application Support/app_id`, with hyphens for
///   whitespace
/// * Windows: `RoamingAppData/app_id/data`
pub fn storage_place(os: OperatingSystem, app_id: &str) -> (place: Option<StoragePlace>)
    ensures
        place is Some <==> storage_root(os) is Some,
        place matches Some(found) ==> {
            &&& Some(found.root) == storage_root(os)
            &&& found.folders@.len() == storage_folders(os, app_id@).len()
            &&& forall|i: int|
                0 <= i < found.folders@.len() ==> (#[trigger] found.folders@[i])@
                    == storage_folders(os, app_id@)[i]
        },
{
    match os {
        OperatingSystem::Nix => {
            let lower = to_lowercase(app_id);
            let mut folders: Vec<String> = Vec::new();
            folders.push(remove_whitespace(lower.as_str()));
            Some(StoragePlace { root: StorageRoot::DataHome, folders })
        },
        OperatingSystem::Mac => {
            let mut folders: Vec<String> = Vec::new();
            folders.push(String::from_str("Library"));
            folders.push(String::from_str("Application Support"));
            folders.push(dash_whitespace(app_id));
            Some(StoragePlace { root: StorageRoot::Home, folders })
        },
        OperatingSystem::Windows => {
            let mut folders: Vec<String> = Vec::new();
            folders.push(String::from_str(app_id));
            folders.push(String::from_str("data"));
            Some(StoragePlace { root: StorageRoot::RoamingAppData, folders })
        },
        OperatingSystem::Unknown | OperatingSystem::Android | OperatingSystem::IOS => None,
    }
}

/// What a store holds after each of `pairs` was written to an empty store,
/// one after the other: for a key that occurs twice, the later value.
pub open spec fn written(pairs: Seq<(String, String)>) -> Map<Seq<char>, Seq<char>>
    decreases pairs.len(),
{
    if pairs.len() == 0 {
        Map::empty()
    } else {
        written(pairs.drop_last()).insert(pairs.last().0@, pairs.last().1@)
    }
}

/// Whether `k` is the last position of `pairs` that has the key `key`.
spec fn is_last_with_key(pairs: Seq<(String, String)>, k: int, key: Seq<char>) -> bool {
    &&& 0 <= k < pairs.len()
    &&& pairs[k].0@ == key
    &&& forall|j: int| k < j < pairs.len() ==> (#[trigger] pairs[j]).0@ != key
}

/// A key that no pair has is not in the map.
proof fn lemma_absent_key(pairs: Seq<(String, String)>, key: Seq<char>)
    requires
        forall|j: int| 0 <= j < pairs.len() ==> (#[trigger] pairs[j]).0@ != key,
    ensures
        !written(pairs).contains_key(key),
    decreases pairs.len(),
{
    if pairs.len() > 0 {
        lemma_absent_key(pairs.drop_last(), key);
    }
}

/// The map gives for a key the value of the last pair that has the key, and
/// writing a new value at that position is writing it to the map.
proof fn lemma_last_with_key(
    pairs: Seq<(String, String)>,
    k: int,
    key: Seq<char>,
    replacement: (String, String),
)
    requires
        is_last_with_key(pairs, k, key),
        replacement.0@ == key,
    ensures
        written(pairs).contains_key(key),
        written(pairs)[key] == pairs[k].1@,
        written(pairs.update(k, replacement)) == written(pairs).insert(key, replacement.1@),
    decreases pairs.len(),
{
    let rest = pairs.drop_last();
    let after = pairs.update(k, replacement);
    if k == pairs.len() - 1 {
        assert(after.drop_last() =~= rest);
    } else {
        lemma_last_with_key(rest, k, key, replacement);
        assert(after.drop_last() =~= rest.update(k, replacement));
    }
}

/// A store of strings by key that knows whether it has changed since it was
/// last saved.
pub struct KeyValueStore {
    pairs: Vec<(String, String)>,
    dirty: bool,
}

impl View for KeyValueStore {
    type V = Map<Seq<char>, Seq<char>>;

    closed spec fn view(&self) -> Map<Seq<char>, Seq<char>> {
        written(self.pairs@)
    }
}

impl KeyValueStore {
    /// Whether the store holds something that was not saved yet.
    pub closed spec fn is_dirty(&self) -> bool {
        self.dirty
    }

    /// An empty store with nothing to save.
    pub fn new() -> (store: Self)
        ensures
            store@ == Map::<Seq<char>, Seq<char>>::empty(),
            !store.is_dirty(),
    {
        KeyValueStore { pairs: Vec::new(), dirty: false }
    }

    /// The store as it was loaded: it holds `pairs`, for a key that occurs
    /// twice the later value, and has nothing to save.
    pub fn from_pairs(pairs: Vec<(String, String)>) -> (store: Self)
        ensures
            store@ == written(pairs@),
            !store.is_dirty(),
    {
        KeyValueStore { pairs, dirty: false }
    }

    /// The last position that has the key `key`.
    fn position_of(&self, key: &String) -> (position: Option<usize>)
        ensures
            position matches Some(k) ==> is_last_with_key(self.pairs@, k as int, key@),
            position is None ==> forall|j: int|
                0 <= j < self.pairs@.len() ==> (#[trigger] self.pairs@[j]).0@ != key@,
    {
        let mut k: usize = self.pairs.len();
        while k > 0
            invariant
                k <= self.pairs@.len(),
                forall|j: int|
                    k <= j < self.pairs@.len() ==> (#[trigger] self.pairs@[j]).0@ != key@,
            decreases k,
        {
            k -= 1;
            if self.pairs[k].0 == *key {
                return Some(k);
            }
        }
        None
    }

    /// The string kept under `key`, if any.
    pub fn get_string(&self, key: &str) -> (value: Option<String>)
        ensures
            value is Some <==> self@.contains_key(key@),
            value matches Some(found) ==> found@ == self@[key@],
    {
        let key = String::from_str(key);
        match self.position_of(&key) {
            Some(k) => {
                proof {
                    lemma_last_with_key(self.pairs@, k as int, key@, self.pairs@[k as int]);
                }
                Some(self.pairs[k].1.clone())
            },
            None => {
                proof {
                    lemma_absent_key(self.pairs@, key@);
                }
                None
            },
        }
    }

    /// Keeps `value` under `key`. The store has something to save from then
    /// on, unless it held this very value under `key` already.
    pub fn set_string(&mut self, key: &str, value: String)
        ensures
            final(self)@ == old(self)@.insert(key@, value@),
            final(self).is_dirty() == (old(self).is_dirty() || !(old(self)@.contains_key(key@)
                && old(self)@[key@] == value@)),
    {
        let key = String::from_str(key);
        match self.position_of(&key) {
            Some(k) => {
                proof {
                    lemma_last_with_key(self.pairs@, k as int, key@, (key, value));
                }
                if !(self.pairs[k].1 == value) {
                    self.pairs[k] = (key, value);
                    self.dirty = true;
                }
            },
            None => {
                proof {
                    lemma_absent_key(self.pairs@, key@);
                    assert(self.pairs@.push((key, value)).drop_last() =~= self.pairs@);
                }
                self.pairs.push((key, value));
                self.dirty = true;
            },
        }
    }

    /// What is to be saved now: all pairs of the store, if it has changed
    /// since it was last saved, and nothing otherwise. The store counts as
    /// saved from then on.
    pub fn take_unsaved(&mut self) -> (unsaved: Option<Vec<(String, String)>>)
        ensures
            final(self)@ == old(self)@,
            !final(self).is_dirty(),
            unsaved is Some <==> old(self).is_dirty(),
            unsaved matches Some(pairs) ==> written(pairs@) == old(self)@,
    {
        if self.dirty {
            self.dirty = false;
            let mut pairs: Vec<(String, String)> = Vec::new();
            let mut k: usize = 0;
            while k < self.pairs.len()
                invariant
                    k <= self.pairs@.len(),
                    pairs@ == self.pairs@.take(k as int),
                decreases self.pairs@.len() - k,
            {
                let pair = &self.pairs[k];
                pairs.push((pair.0.clone(), pair.1.clone()));
                k += 1;
            }
            assert(self.pairs@.take(self.pairs@.len() as int) =~= self.pairs@);
            Some(pairs)
        } else {
            None
        }
    }
}

} // verus!
