//! The registry: named launch configurations (instances) kept as an
//! ordered mapping from unique names to instances, in lexical order of
//! the names, together with the default launcher path.

use vstd::prelude::*;
use crate::lex::{lex_lt, str_lex_lt, lemma_lex_trichotomy, lemma_lex_trans, lemma_lex_irrefl};

verus! {

/// One launch configuration: a mods folder and an optional override
/// for the launcher executable.
pub struct Instance {
    pub folder_name: String,
    pub smapi_path: Option<String>,
}

/// The abstract value of an `Instance`.
#[verifier::ext_equal]
pub struct InstanceV {
    pub folder_name: Seq<char>,
    pub smapi_path: Option<Seq<char>>,
}

pub open spec fn opt_chars(o: Option<String>) -> Option<Seq<char>> {
    match o {
        Some(p) => Some(p@),
        None => None,
    }
}

impl View for Instance {
    type V = InstanceV;

    open spec fn view(&self) -> InstanceV {
        InstanceV { folder_name: self.folder_name@, smapi_path: opt_chars(self.smapi_path) }
    }
}

impl Instance {
    pub fn new(folder_name: String, smapi_path: Option<String>) -> (r: Instance)
        ensures
            r@ == (InstanceV { folder_name: folder_name@, smapi_path: opt_chars(smapi_path) }),
    {
        Instance { folder_name, smapi_path }
    }
}

/// The registry of instances plus the default launcher path.
pub struct Manager {
    pub instances: Vec<(String, Instance)>,
    pub smapi_path: String,
}

/// The abstract value of a `Manager`: the entry list in its stored
/// order, and the default launcher path.
#[verifier::ext_equal]
pub struct ManagerV {
    pub entries: Seq<(Seq<char>, InstanceV)>,
    pub smapi_path: Seq<char>,
}

/// The abstract entries of a raw entry list.
pub open spec fn entries_view(l: Seq<(String, Instance)>) -> Seq<(Seq<char>, InstanceV)> {
    l.map_values(|p: (String, Instance)| (p.0@, p.1@))
}

impl View for Manager {
    type V = ManagerV;

    open spec fn view(&self) -> ManagerV {
        ManagerV { entries: entries_view(self.instances@), smapi_path: self.smapi_path@ }
    }
}

/// The names stand in strictly increasing lexical order, so each name
/// occurs at most once.
pub open spec fn sorted_entries(es: Seq<(Seq<char>, InstanceV)>) -> bool {
    forall|i: int, j: int| 0 <= i < j < es.len() ==> lex_lt(es[i].0, es[j].0)
}

/// Whether some entry carries the given name.
pub open spec fn has_key(es: Seq<(Seq<char>, InstanceV)>, n: Seq<char>) -> bool {
    exists|i: int| 0 <= i < es.len() && es[i].0 == n
}

/// The entry list after inserting or overwriting the entry at a name,
/// keeping lexical order.
pub open spec fn upsert_entries(
    es: Seq<(Seq<char>, InstanceV)>,
    n: Seq<char>,
    v: InstanceV,
) -> Seq<(Seq<char>, InstanceV)>
    decreases es.len(),
{
    if es.len() == 0 {
        seq![(n, v)]
    } else if lex_lt(n, es[0].0) {
        seq![(n, v)] + es
    } else if es[0].0 == n {
        seq![(n, v)] + es.drop_first()
    } else {
        seq![es[0]] + upsert_entries(es.drop_first(), n, v)
    }
}

/// The entry list after removing the first entry with the given name.
pub open spec fn remove_entries(
    es: Seq<(Seq<char>, InstanceV)>,
    n: Seq<char>,
) -> Seq<(Seq<char>, InstanceV)>
    decreases es.len(),
{
    if es.len() == 0 {
        es
    } else if es[0].0 == n {
        es.drop_first()
    } else {
        seq![es[0]] + remove_entries(es.drop_first(), n)
    }
}

/// The instance stored at a name that `has_key` admits.
pub open spec fn entry_at(es: Seq<(Seq<char>, InstanceV)>, n: Seq<char>) -> InstanceV
    decreases es.len(),
{
    if es.len() == 0 {
        arbitrary()
    } else if es[0].0 == n {
        es[0].1
    } else {
        entry_at(es.drop_first(), n)
    }
}

impl ManagerV {
    /// Well-formedness: the entries are sorted by name.
    pub open spec fn wf(self) -> bool {
        sorted_entries(self.entries)
    }
}

/// `upsert_entries` at a position whose left neighbours all precede
/// the name is an update (same name found) or an insertion.
proof fn lemma_upsert_form(es: Seq<(Seq<char>, InstanceV)>, n: Seq<char>, v: InstanceV, i: int)
    requires
        0 <= i <= es.len(),
        forall|k: int| 0 <= k < i ==> lex_lt(#[trigger] es[k].0, n),
        i < es.len() ==> !lex_lt(es[i].0, n),
    ensures
        i < es.len() && es[i].0 == n ==> upsert_entries(es, n, v) == es.update(i, (n, v)),
        (i == es.len() || es[i].0 != n) ==> upsert_entries(es, n, v) == es.insert(i, (n, v)),
    decreases i,
{
    if i == 0 {
        if es.len() == 0 {
            assert(upsert_entries(es, n, v) =~= es.insert(0, (n, v)));
        } else if es[0].0 == n {
            lemma_lex_irrefl(n);
            assert(upsert_entries(es, n, v) =~= es.update(0, (n, v)));
        } else {
            lemma_lex_trichotomy(n, es[0].0);
            assert(lex_lt(n, es[0].0));
            assert(upsert_entries(es, n, v) =~= es.insert(0, (n, v)));
        }
    } else {
        assert(lex_lt(es[0].0, n));
        lemma_lex_trichotomy(n, es[0].0);
        assert(!lex_lt(n, es[0].0) && es[0].0 != n);
        let tail = es.drop_first();
        assert(forall|k: int| 0 <= k < i - 1 ==> lex_lt(#[trigger] tail[k].0, n));
        lemma_upsert_form(tail, n, v, i - 1);
        if i < es.len() && es[i].0 == n {
            assert(tail[i - 1].0 == n);
            assert(upsert_entries(es, n, v) == seq![es[0]] + tail.update(i - 1, (n, v)));
            assert(seq![es[0]] + tail.update(i - 1, (n, v)) =~= es.update(i, (n, v)));
        } else {
            assert(upsert_entries(es, n, v) == seq![es[0]] + tail.insert(i - 1, (n, v)));
            assert(seq![es[0]] + tail.insert(i - 1, (n, v)) =~= es.insert(i, (n, v)));
        }
    }
}

/// `remove_entries` removes exactly the entry at the first position
/// holding the name.
proof fn lemma_remove_form(es: Seq<(Seq<char>, InstanceV)>, n: Seq<char>, j: int)
    requires
        0 <= j < es.len(),
        es[j].0 == n,
        forall|k: int| 0 <= k < j ==> (#[trigger] es[k].0) != n,
    ensures
        remove_entries(es, n) == es.remove(j),
    decreases j,
{
    if j == 0 {
        assert(remove_entries(es, n) =~= es.remove(0));
    } else {
        let tail = es.drop_first();
        assert(tail[j - 1].0 == n);
        assert(forall|k: int| 0 <= k < j - 1 ==> (#[trigger] tail[k].0) != n);
        lemma_remove_form(tail, n, j - 1);
        assert(remove_entries(es, n) == seq![es[0]] + tail.remove(j - 1));
        assert(seq![es[0]] + tail.remove(j - 1) =~= es.remove(j));
    }
}

/// In a sorted entry list the instance at a name is the one at its
/// (unique) position.
proof fn lemma_entry_at(es: Seq<(Seq<char>, InstanceV)>, n: Seq<char>, j: int)
    requires
        0 <= j < es.len(),
        es[j].0 == n,
        forall|k: int| 0 <= k < j ==> (#[trigger] es[k].0) != n,
    ensures
        entry_at(es, n) == es[j].1,
    decreases j,
{
    if j > 0 {
        let tail = es.drop_first();
        assert(tail[j - 1].0 == n);
        assert(forall|k: int| 0 <= k < j - 1 ==> (#[trigger] tail[k].0) != n);
        lemma_entry_at(tail, n, j - 1);
    }
}

/// Errors of the removal operation.
#[derive(Clone, Copy, PartialEq, Eq, Structural, Debug)]
pub enum RemoveError {
    /// No entry carries the given name.
    NotFound,
    /// Removing the entry would leave the registry empty.
    InvariantViolation,
    /// The requested deletion of the mods folder did not succeed.
    FolderDeleteError,
}

impl Manager {
    /// A freshly seeded registry: exactly one entry, named `Default`,
    /// whose folder is `Mods`, with no launcher override.
    pub fn new(smapi_path: String) -> (m: Manager)
        ensures
            m@.wf(),
            m@.entries.len() == 1,
            m@.entries[0].0 == default_name(),
            m@.entries[0].1 == (InstanceV { folder_name: mods_folder_name(), smapi_path: None }),
            m@.smapi_path == smapi_path@,
    {
        let mut instances: Vec<(String, Instance)> = Vec::new();
        let name = new_default_name();
        let instance = Instance::new(new_mods_folder_name(), None);
        instances.push((name, instance));
        Manager { instances, smapi_path }
    }

    /// Whether an entry with this name exists.
    pub fn contains_name(&self, name: &String) -> (r: bool)
        ensures
            r == has_key(self@.entries, name@),
    {
        let mut j: usize = 0;
        while j < self.instances.len()
            invariant
                j <= self@.entries.len(),
                self@.entries.len() == self.instances@.len(),
                forall|k: int| 0 <= k < j ==> (#[trigger] self@.entries[k].0) != name@,
            decreases self@.entries.len() - j,
        {
            if self.instances[j].0 == *name {
                assert(self@.entries[j as int].0 == name@);
                return true;
            }
            j += 1;
        }
        false
    }

    /// The instance at a name, if any.
    pub fn lookup(&self, name: &String) -> (r: Option<&Instance>)
        ensures
            match r {
                Some(inst) => has_key(self@.entries, name@) && inst@ == entry_at(
                    self@.entries,
                    name@,
                ),
                None => !has_key(self@.entries, name@),
            },
    {
        let mut j: usize = 0;
        while j < self.instances.len()
            invariant
                j <= self@.entries.len(),
                self@.entries.len() == self.instances@.len(),
                forall|k: int| 0 <= k < j ==> (#[trigger] self@.entries[k].0) != name@,
            decreases self@.entries.len() - j,
        {
            if self.instances[j].0 == *name {
                proof {
                    lemma_entry_at(self@.entries, name@, j as int);
                }
                return Some(&self.instances[j].1);
            }
            j += 1;
        }
        None
    }

    /// Inserts the instance under the name, or overwrites the entry
    /// already carrying it; lexical order of names is kept.
    pub fn add_instance(&mut self, instance: Instance, name: String)
        requires
            old(self)@.wf(),
        ensures
            final(self)@.wf(),
            final(self)@.entries == upsert_entries(old(self)@.entries, name@, instance@),
            final(self)@.smapi_path == old(self)@.smapi_path,
            final(self)@.entries.len() >= old(self)@.entries.len(),
            final(self)@.entries.len() >= 1,
            has_key(final(self)@.entries, name@),
    {
        let ghost es = self@.entries;
        let ghost nv = name@;
        let mut i: usize = 0;
        while i < self.instances.len() && str_lex_lt(self.instances[i].0.as_str(), name.as_str())
            invariant
                i <= es.len(),
                es.len() == self.instances@.len(),
                self@.entries == es,
                nv == name@,
                forall|k: int| 0 <= k < i ==> lex_lt(#[trigger] es[k].0, nv),
            decreases es.len() - i,
        {
            proof {
                assert(es[i as int].0 == self.instances@[i as int].0@);
            }
            i += 1;
        }
        proof {
            lemma_upsert_form(es, nv, instance@, i as int);
            if i < es.len() {
                lemma_lex_trichotomy(nv, es[i as int].0);
            }
        }
        if i < self.instances.len() && self.instances[i].0 == name {
            let ghost iv = instance@;
            self.instances.remove(i);
            self.instances.insert(i, (name, instance));
            proof {
                assert(self@.entries =~= es.update(i as int, (nv, iv)));
                assert(sorted_entries(self@.entries)) by {
                    assert(forall|a: int, b: int|
                        0 <= a < b < es.len() ==> lex_lt(
                            #[trigger] es.update(i as int, (nv, iv))[a].0,
                            #[trigger] es.update(i as int, (nv, iv))[b].0,
                        ));
                }
                assert(self@.entries[i as int].0 == nv);
            }
        } else {
            let ghost iv = instance@;
            self.instances.insert(i, (name, instance));
            proof {
                assert(self@.entries =~= es.insert(i as int, (nv, iv)));
                let es2 = es.insert(i as int, (nv, iv));
                assert forall|a: int, b: int| 0 <= a < b < es2.len() implies lex_lt(
                    es2[a].0,
                    es2[b].0,
                ) by {
                    if b < i {
                        assert(lex_lt(es[a].0, es[b].0));
                    } else if a < i && b == i {
                        assert(lex_lt(es[a].0, nv));
                    } else if a < i && b > i {
                        assert(lex_lt(es[a].0, es[b - 1].0));
                    } else if a == i {
                        assert(lex_lt(nv, es[i as int].0));
                        if b > i + 1 {
                            lemma_lex_trans(nv, es[i as int].0, es[b - 1].0);
                        }
                    } else {
                        assert(lex_lt(es[a - 1].0, es[b - 1].0));
                    }
                }
                assert(self@.entries[i as int].0 == nv);
            }
        }
    }

    /// Removes the entry at the name, per the removal contract: the
    /// name must exist, the registry may never become empty, and when
    /// a folder deletion was requested its reported outcome must be
    /// success, else nothing changes.
    ///
    /// `folder_outcome` is `None` for a plain removal and `Some(ok)`
    /// when deletion of the instance's folder was requested and `ok`
    /// says whether that deletion succeeded.
    pub fn remove_instance(&mut self, name: &String, folder_outcome: Option<bool>) -> (r: Result<
        (),
        RemoveError,
    >)
        requires
            old(self)@.wf(),
        ensures
            final(self)@.wf(),
            final(self)@.smapi_path == old(self)@.smapi_path,
            final(self)@.entries.len() >= 1 || old(self)@.entries.len() == 0,
            match r {
                Ok(_) => has_key(old(self)@.entries, name@) && old(self)@.entries.len() >= 2 && (
                folder_outcome is Some ==> folder_outcome == Some(true)) && final(self)@.entries
                    == remove_entries(old(self)@.entries, name@),
                Err(RemoveError::NotFound) => final(self)@ == old(self)@ && !has_key(
                    old(self)@.entries,
                    name@,
                ),
                Err(RemoveError::InvariantViolation) => final(self)@ == old(self)@ && has_key(
                    old(self)@.entries,
                    name@,
                ) && old(self)@.entries.len() == 1,
                Err(RemoveError::FolderDeleteError) => final(self)@ == old(self)@ && has_key(
                    old(self)@.entries,
                    name@,
                ) && old(self)@.entries.len() >= 2 && folder_outcome == Some(false),
            },
    {
        let ghost es = self@.entries;
        let mut j: usize = 0;
        loop
            invariant
                j <= es.len(),
                es.len() == self.instances@.len(),
                self@.entries == es,
                self@ == old(self)@,
                old(self)@.wf(),
                forall|k: int| 0 <= k < j ==> (#[trigger] es[k].0) != name@,
            ensures
                j < es.len(),
                es[j as int].0 == name@,
                forall|k: int| 0 <= k < j ==> (#[trigger] es[k].0) != name@,
            decreases es.len() - j,
        {
            if j == self.instances.len() {
                proof {
                    assert(!has_key(es, name@));
                }
                return Err(RemoveError::NotFound);
            }
            if self.instances[j].0 == *name {
                proof {
                    assert(es[j as int].0 == self.instances@[j as int].0@);
                }
                break ;
            }
            proof {
                assert(es[j as int].0 == self.instances@[j as int].0@);
            }
            j += 1;
        }
        assert(es[j as int].0 == name@);
        if self.instances.len() == 1 {
            return Err(RemoveError::InvariantViolation);
        }
        if let Some(ok) = folder_outcome {
            if !ok {
                return Err(RemoveError::FolderDeleteError);
            }
        }
        proof {
            lemma_remove_form(es, name@, j as int);
        }
        self.instances.remove(j);
        proof {
            assert(self@.entries =~= es.remove(j as int));
            let es2 = es.remove(j as int);
            assert forall|a: int, b: int| 0 <= a < b < es2.len() implies lex_lt(
                es2[a].0,
                es2[b].0,
            ) by {
                if b < j {
                    assert(lex_lt(es[a].0, es[b].0));
                } else if a < j {
                    assert(lex_lt(es[a].0, es[b + 1].0));
                } else {
                    assert(lex_lt(es[a + 1].0, es[b + 1].0));
                }
            }
        }
        Ok(())
    }
}

/// The name of the seed entry.
pub open spec fn default_name() -> Seq<char> {
    seq!['D', 'e', 'f', 'a', 'u', 'l', 't']
}

/// The folder of the seed entry.
pub open spec fn mods_folder_name() -> Seq<char> {
    seq!['M', 'o', 'd', 's']
}

/// A `String` holding the seed entry's name.
pub fn new_default_name() -> (r: String)
    ensures
        r@ == default_name(),
{
    let r = "Default".to_owned();
    proof {
        reveal_strlit("Default");
        assert(r@ =~= default_name());
    }
    r
}

/// A `String` holding the seed entry's folder.
pub fn new_mods_folder_name() -> (r: String)
    ensures
        r@ == mods_folder_name(),
{
    let r = "Mods".to_owned();
    proof {
        reveal_strlit("Mods");
        assert(r@ =~= mods_folder_name());
    }
    r
}

} // verus!
