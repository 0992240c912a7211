use std::collections::HashMap;
use vstd::hash_map::StringHashMap;
use vstd::prelude::*;

pub mod laws;
pub mod number;
pub mod text;
pub mod utils;

use text::strs;
use utils::{find_first, id_match, opt_string_view, ProcessWmList};

verus! {

broadcast use vstd::std_specs::hash::group_hash_axioms;

/// Names the `u64` that std's `DefaultHasher`, as `DefaultHasher::new`
/// makes it, yields for a string slice.
pub uninterp spec fn str_hash(s: Seq<char>) -> u64;

/// std's `BuildHasher::hash_one` with the builder of `DefaultHasher`: hashes
/// `s` with a fresh `DefaultHasher` (the keys of `DefaultHasher::new`, the
/// same for every hasher it makes) and returns `finish()`. The result is a
/// function of `s` alone, named `str_hash`; SipHash itself is not restated.
#[verifier::external_body]
fn default_hash(s: &str) -> (h: u64)
    ensures
        h == str_hash(s@),
{
    std::hash::BuildHasher::hash_one(
        &std::hash::BuildHasherDefault::<std::collections::hash_map::DefaultHasher>::default(),
        s,
    )
}

/// The hash of `t` under std's `DefaultHasher`.
pub fn calculate_hash(t: &str) -> (h: u64)
    ensures
        h == str_hash(t@),
{
    default_hash(t)
}

/// Why a window could not be found.
#[derive(Debug)]
pub enum WinstateError {
    NotFound,
    PanicState(String),
}

/// The cached window id stored under the hash `h`, if there is one.
pub open spec fn cache_lookup(cache: Map<u64, Seq<char>>, h: u64) -> Option<Seq<char>> {
    if cache.contains_key(h) {
        Some(cache[h])
    } else {
        None
    }
}

/// The window id that looking up the application of hash `h` gives: the
/// cached one, else what the window tree gave (`found`); `None` when neither
/// has one.
pub open spec fn fetch_result(
    cache: Map<u64, Seq<char>>,
    h: u64,
    found: Option<Seq<char>>,
) -> Option<Seq<char>> {
    match cache_lookup(cache, h) {
        Some(id) => Some(id),
        None => found,
    }
}

/// The cache after looking up the application of hash `h`: an id found in
/// the window tree is stored under `h`; a cached id is kept as it is.
pub open spec fn fetch_cache(
    cache: Map<u64, Seq<char>>,
    h: u64,
    found: Option<Seq<char>>,
) -> Map<u64, Seq<char>> {
    match cache_lookup(cache, h) {
        Some(_) => cache,
        None => match found {
            Some(id) => cache.insert(h, id),
            None => cache,
        },
    }
}

/// The recorded windows after recording `id` against the window list `wm`:
/// an id already recorded keeps its line; otherwise the first line of `wm`
/// for that id is recorded, if there is one.
pub open spec fn add_win_storage(
    storage: Map<Seq<char>, Seq<char>>,
    wm: Seq<Seq<char>>,
    id: Seq<char>,
) -> Map<Seq<char>, Seq<char>> {
    if storage.contains_key(id) {
        storage
    } else {
        match find_first(wm, |l: Seq<char>| id_match(l, id)) {
            Some(line) => storage.insert(id, line),
            None => storage,
        }
    }
}

/// The window to switch to when `active` is focused and the application's
/// window is `appid`, `stack` being the windows seen before: the
/// application's window, or, when it is already focused, the first window
/// ever seen.
pub open spec fn toggle_target(stack: Seq<Seq<char>>, active: Seq<char>, appid: Seq<char>) -> Seq<
    char,
> {
    if active != appid {
        appid
    } else {
        stack.push(active)[0]
    }
}

/// The state that switches between an application's window and the window
/// the user came from.
pub struct WinPinner {
    pub win_storage: StringHashMap<String>,
    pub app_cache: HashMap<u64, String>,
    pub winstack: Vec<String>,
}

impl WinPinner {
    /// The recorded windows: window id to its line of `wmctrl -lx`.
    pub open spec fn storage(&self) -> Map<Seq<char>, Seq<char>> {
        self.win_storage@.map_values(|v: String| v@)
    }

    /// The cached window ids, by the hash of the application's name.
    pub open spec fn cache(&self) -> Map<u64, Seq<char>> {
        self.app_cache@.map_values(|v: String| v@)
    }

    /// The windows that were focused when a toggle happened, oldest first.
    pub open spec fn stack(&self) -> Seq<Seq<char>> {
        strs(self.winstack@)
    }

    /// An empty pinner.
    pub fn new() -> (r: Self)
        ensures
            r.storage() == Map::<Seq<char>, Seq<char>>::empty(),
            r.storage().dom().finite(),
            r.cache() == Map::<u64, Seq<char>>::empty(),
            r.stack() == Seq::<Seq<char>>::empty(),
    {
        let r = WinPinner {
            win_storage: StringHashMap::new(),
            app_cache: HashMap::new(),
            winstack: Vec::new(),
        };
        assert(r.storage() =~= Map::<Seq<char>, Seq<char>>::empty());
        assert(r.cache() =~= Map::<u64, Seq<char>>::empty());
        assert(r.stack() =~= Seq::<Seq<char>>::empty());
        r
    }

    /// Records the window `win_id` with its line of the window list `wm`,
    /// unless it is recorded already (see `add_win_storage`).
    pub fn add_win(&mut self, wm: &ProcessWmList, win_id: String)
        ensures
            final(self).storage() == add_win_storage(old(self).storage(), wm@, win_id@),
            final(self).cache() == old(self).cache(),
            final(self).stack() == old(self).stack(),
            old(self).storage().dom().finite() ==> final(self).storage().dom().finite()
                && final(self).storage().dom().len() <= old(self).storage().dom().len() + 1,
    {
        proof {
            if old(self).storage().dom().finite() {
                crate::laws::lemma_add_win_grows_by_at_most_one(old(self).storage(), wm@, win_id@);
            }
        }
        if !self.win_storage.contains_key(win_id.as_str()) {
            if let Some(info) = wm.find_with_id(win_id.as_str()) {
                let line = String::from_str(info);
                let ghost before = self.storage();
                let ghost key = win_id@;
                self.win_storage.insert(win_id, line);
                assert(self.storage() =~= before.insert(key, info@));
            }
        }
    }

    /// Records the focused window `active` against the window list `wm`
    /// (as `add_win` does).
    pub fn append_active_window(&mut self, wm: &ProcessWmList, active: String)
        ensures
            final(self).storage() == add_win_storage(old(self).storage(), wm@, active@),
            final(self).cache() == old(self).cache(),
            final(self).stack() == old(self).stack(),
            old(self).storage().dom().finite() ==> final(self).storage().dom().finite()
                && final(self).storage().dom().len() <= old(self).storage().dom().len() + 1,
    {
        self.add_win(wm, active);
    }

    /// Notes the focused window `active` on top of the stack.
    pub fn note_window(&mut self, active: String)
        ensures
            final(self).stack() == old(self).stack().push(active@),
            final(self).storage() == old(self).storage(),
            final(self).cache() == old(self).cache(),
    {
        let ghost before = self.stack();
        let ghost v = active@;
        self.winstack.push(active);
        assert(self.stack() =~= before.push(v));
    }

    /// Notes the focused window `active` and returns the window to switch
    /// to, `appid` being the application's window (see `toggle_target`).
    pub fn toggle_mechanism(&mut self, active: String, appid: String) -> (target: String)
        ensures
            final(self).stack() == old(self).stack().push(active@),
            target@ == toggle_target(old(self).stack(), active@, appid@),
            final(self).storage() == old(self).storage(),
            final(self).cache() == old(self).cache(),
    {
        let ghost before = self.stack();
        self.note_window(active.clone());
        assert(self.winstack@.len() == self.stack().len());
        assert(self.winstack@[0]@ == before.push(active@)[0]);
        if !(active == appid) {
            appid
        } else {
            self.winstack[0].clone()
        }
    }

    /// The cached window id stored under the hash `hashed`, if there is one.
    pub fn cached_appid_by_hash(&self, hashed: u64) -> (r: Option<String>)
        ensures
            opt_string_view(r) == cache_lookup(self.cache(), hashed),
    {
        match self.app_cache.get(&hashed) {
            Some(wid) => Some(wid.clone()),
            None => None,
        }
    }

    /// The cached window id of the application `app`, if there is one.
    pub fn cached_appid(&self, app: &str) -> (r: Option<String>)
        ensures
            opt_string_view(r) == cache_lookup(self.cache(), str_hash(app@)),
    {
        let hashed = calculate_hash(app);
        self.cached_appid_by_hash(hashed)
    }

    /// The window id of the application of hash `hashed`: the cached one,
    /// else `found` (what the window tree gave), which is then cached under
    /// `hashed`; `NotFound` when neither has one.
    pub fn fetch_appid_by_hash(&mut self, hashed: u64, found: Option<String>) -> (r: Result<
        String,
        WinstateError,
    >)
        ensures
            final(self).cache() == fetch_cache(old(self).cache(), hashed, opt_string_view(found)),
            match r {
                Ok(id) => fetch_result(old(self).cache(), hashed, opt_string_view(found)) == Some(
                    id@,
                ),
                Err(e) => fetch_result(old(self).cache(), hashed, opt_string_view(found)) is None
                    && e is NotFound,
            },
            final(self).storage() == old(self).storage(),
            final(self).stack() == old(self).stack(),
    {
        if let Some(wid) = self.app_cache.get(&hashed) {
            return Ok(wid.clone());
        }
        match found {
            Some(id) => {
                let ghost before = self.cache();
                self.app_cache.insert(hashed, id.clone());
                assert(self.cache() =~= before.insert(hashed, id@));
                Ok(id)
            },
            None => Err(WinstateError::NotFound),
        }
    }

    /// The window id of the application `app`: the cached one, else `found`
    /// (what the window tree gave), which is then cached under the hash of
    /// `app`; `NotFound` when neither has one.
    pub fn fetch_appid(&mut self, app: &str, found: Option<String>) -> (r: Result<String, WinstateError>)
        ensures
            final(self).cache() == fetch_cache(old(self).cache(), str_hash(app@), opt_string_view(found)),
            match r {
                Ok(id) => fetch_result(old(self).cache(), str_hash(app@), opt_string_view(found))
                    == Some(id@),
                Err(e) => fetch_result(old(self).cache(), str_hash(app@), opt_string_view(found)) is None
                    && e is NotFound,
            },
            final(self).storage() == old(self).storage(),
            final(self).stack() == old(self).stack(),
    {
        let hashed = calculate_hash(app);
        self.fetch_appid_by_hash(hashed, found)
    }
}

} // verus!
