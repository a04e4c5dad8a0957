//! The persisted toggle-state store.
//!
//! `ToggleStateStore` owns the in-memory mapping of switch names to boolean
//! states; it is the sole source of truth for switch state.  Every mutation
//! writes the whole mapping back through to the backing resource (no
//! write-behind buffering).  A failure to read, parse or write the resource is
//! surfaced as a [`StoreError`] and recovered locally: the store falls back to
//! an empty mapping on load failures and keeps its in-memory state on write
//! failures.

use vstd::prelude::*;
use crate::config::{
    as_map, contains_name, entries_view, lemma_as_map_at, lemma_as_map_names, lemma_as_map_upsert,
    lemma_render_round_trip, lemma_upsert_absent, lemma_upsert_at, lemma_upsert_wf, parse_cfg,
    parse_config, render, render_config, upsert, valid_name, wf_entries,
};
use crate::dispatch::{data_dir_string, opt_text};
use crate::errors::StoreError;
use crate::text::str_eq;

verus! {

/// The durable storage the store persists to, as the core sees it: the text
/// it holds, if it can be read at all, and whether it can be overwritten.
/// The surrounding program keeps it in step with the real resource (a file):
/// it fills `content` before a load and writes `content` out after a save.
pub struct BackingResource {
    /// The text the resource holds; `None` when it cannot be read.
    pub content: Option<String>,
    /// Whether the resource accepts being overwritten.
    pub writable: bool,
}

/// The in-memory mapping of switch names to boolean states.
pub struct ToggleStateStore {
    entries: Vec<(String, bool)>,
}

impl View for ToggleStateStore {
    type V = Seq<(Seq<char>, bool)>;

    closed spec fn view(&self) -> Seq<(Seq<char>, bool)> {
        entries_view(self.entries@)
    }
}

/// The first entry of `n`, if any, together with the names before it.
fn find_name(es: &Vec<(String, bool)>, n: &str) -> (r: Option<usize>)
    ensures
        match r {
            Some(j) => j < es@.len() && entries_view(es@)[j as int].0 == n@ && forall|k: int|
                0 <= k < j ==> (#[trigger] entries_view(es@)[k]).0 != n@,
            None => forall|k: int| 0 <= k < es@.len() ==> (#[trigger] entries_view(es@)[k]).0 != n@,
        },
{
    let m = es.len();
    let mut j: usize = 0;
    while j < m
        invariant
            j <= m,
            m == es@.len(),
            forall|k: int| 0 <= k < j ==> (#[trigger] entries_view(es@)[k]).0 != n@,
        decreases m - j,
    {
        proof {
            assert(entries_view(es@)[j as int] == (es@[j as int].0@, es@[j as int].1));
        }
        if str_eq(es[j].0.as_str(), n) {
            return Some(j);
        }
        j += 1;
    }
    None
}

impl ToggleStateStore {
    /// Whether the store's entries are well formed: every name valid, none
    /// held twice.
    pub open spec fn wf(&self) -> bool {
        wf_entries(self@)
    }

    /// The mapping the store stands for.
    pub open spec fn mapping(&self) -> Map<Seq<char>, bool> {
        as_map(self@)
    }

    /// An empty store.
    pub fn new() -> (s: Self)
        ensures
            s@ == Seq::<(Seq<char>, bool)>::empty(),
            s.wf(),
    {
        let s = ToggleStateStore { entries: Vec::new() };
        proof {
            assert(s@ =~= Seq::<(Seq<char>, bool)>::empty());
        }
        s
    }

    /// Read the persisted mapping out of the backing resource.
    ///
    /// An unreadable resource yields `ConfigUnreadable`, a text that is not a
    /// flat name-to-boolean mapping yields `ConfigMalformed`; either way the
    /// store comes back empty and the process goes on.
    pub fn load(res: &BackingResource) -> (r: (ToggleStateStore, Option<StoreError>))
        ensures
            r.0.wf(),
            match res.content {
                None => r.0@ == Seq::<(Seq<char>, bool)>::empty() && r.1 == Some(
                    StoreError::ConfigUnreadable,
                ),
                Some(t) => match parse_cfg(t@) {
                    Some(es) => r.0@ == es && r.1 == None::<StoreError>,
                    None => r.0@ == Seq::<(Seq<char>, bool)>::empty() && r.1 == Some(
                        StoreError::ConfigMalformed,
                    ),
                },
            },
    {
        match &res.content {
            None => (Self::new(), Some(StoreError::ConfigUnreadable)),
            Some(t) => match parse_config(t.as_str()) {
                Ok(es) => (ToggleStateStore { entries: es }, None),
                Err(e) => (Self::new(), Some(e)),
            },
        }
    }

    /// Serialize the whole mapping and overwrite the backing resource.
    ///
    /// A resource that cannot be written yields `ConfigWriteFailed` and is
    /// left as it was; the in-memory mapping stays authoritative either way.
    pub fn save(&self, res: &mut BackingResource) -> (r: Result<(), StoreError>)
        ensures
            old(res).writable ==> r is Ok && final(res).writable
                && (final(res).content matches Some(t) && t@ == render(self@)),
            !old(res).writable ==> r == Err::<(), StoreError>(StoreError::ConfigWriteFailed)
                && *final(res) == *old(res),
    {
        if res.writable {
            res.content = Some(render_config(&self.entries));
            Ok(())
        } else {
            Err(StoreError::ConfigWriteFailed)
        }
    }

    /// Upsert one switch, then immediately write the whole mapping through.
    ///
    /// The in-memory update always happens; a write failure is reported but
    /// not rolled back.
    pub fn set(&mut self, res: &mut BackingResource, name: &str, value: bool) -> (r: Result<
        (),
        StoreError,
    >)
        requires
            old(self).wf(),
            valid_name(name@),
        ensures
            final(self).wf(),
            final(self)@ == upsert(old(self)@, name@, value),
            final(self).mapping() == old(self).mapping().insert(name@, value),
            old(res).writable ==> r is Ok && final(res).writable
                && (final(res).content matches Some(t) && t@ == render(final(self)@)),
            !old(res).writable ==> r == Err::<(), StoreError>(StoreError::ConfigWriteFailed)
                && *final(res) == *old(res),
    {
        let ghost before = self@;
        match find_name(&self.entries, name) {
            Some(j) => {
                let nm = self.entries[j].0.clone();
                self.entries[j] = (nm, value);
                proof {
                    assert(self@ =~= before.update(j as int, (name@, value)));
                    lemma_upsert_at(before, name@, value, j as int);
                }
            },
            None => {
                self.entries.push((name.to_owned(), value));
                proof {
                    assert(self@ =~= before.push((name@, value)));
                    lemma_upsert_absent(before, name@, value);
                }
            },
        }
        proof {
            lemma_upsert_wf(before, name@, value);
            lemma_as_map_upsert(before, name@, value);
        }
        self.save(res)
    }

    /// The state of one switch, or nothing if it has not been seen.
    pub fn get(&self, name: &str) -> (r: Option<bool>)
        requires
            self.wf(),
        ensures
            r == (if self.mapping().contains_key(name@) {
                Some(self.mapping()[name@])
            } else {
                None::<bool>
            }),
    {
        match find_name(&self.entries, name) {
            Some(j) => {
                proof {
                    lemma_as_map_at(self@, name@, j as int);
                }
                Some(self.entries[j].1)
            },
            None => {
                proof {
                    if contains_name(self@, name@) {
                        let k = choose|k: int|
                            0 <= k < self@.len() && (#[trigger] self@[k]).0 == name@;
                        assert(self@[k].0 != name@);
                    }
                    lemma_as_map_names(self@, name@);
                }
                None
            },
        }
    }

    /// The entries as stored, for display by the presentation layer.
    pub fn entries(&self) -> (r: &Vec<(String, bool)>)
        ensures
            entries_view(r@) == self@,
    {
        &self.entries
    }
}

/// The file the mapping is persisted in, under the given base directory, or
/// in the working directory when the platform defines none.
pub open spec fn config_file_text(base: Option<Seq<char>>) -> Seq<char> {
    match base {
        Some(b) => b + "/W-Squid/switches.conf"@,
        None => "switches.conf"@,
    }
}

/// The persisted mapping's file under the given base directory.
pub fn config_file_path(base: Option<String>) -> (r: String)
    ensures
        r@ == config_file_text(opt_text(base)),
{
    match base {
        Some(mut b) => {
            b.append("/W-Squid/switches.conf");
            b
        },
        None => String::from_str("switches.conf"),
    }
}

/// The persisted mapping's file under the platform's data directory, with a
/// working-directory fallback when the platform defines none.
pub fn default_config_path() -> (r: String)
    ensures
        exists|b: Option<Seq<char>>| r@ == #[trigger] config_file_text(b),
{
    let base = data_dir_string();
    let ghost b = opt_text(base);
    let r = config_file_path(base);
    proof {
        assert(r@ == config_file_text(b));
    }
    r
}

/// Law: a toggle written through `set` survives persistence.  The text that
/// `set` writes through parses back to exactly the updated entry list, and
/// that list's mapping holds the new value under the switch's name.
pub proof fn lemma_set_then_load(es: Seq<(Seq<char>, bool)>, name: Seq<char>, value: bool)
    requires
        wf_entries(es),
        valid_name(name),
    ensures
        ({
            let es2 = upsert(es, name, value);
            &&& parse_cfg(render(es2)) == Some(es2)
            &&& as_map(es2).contains_key(name)
            &&& as_map(es2)[name] == value
        }),
{
    lemma_upsert_wf(es, name, value);
    lemma_render_round_trip(upsert(es, name, value));
    lemma_as_map_upsert(es, name, value);
}

} // verus!
