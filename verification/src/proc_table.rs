//! Which process runs which script.

use vstd::prelude::*;

use crate::runner::ProcId;
use crate::source::SourceId;
use crate::text::same_text;

verus! {

/// A script: its directory, its source and its name.
pub struct ScriptKey {
    pub dir_index: usize,
    pub source: SourceId,
    pub name: String,
}

/// A script by its texts.
#[verifier::ext_equal]
pub ghost struct ScriptKeyView {
    pub dir_index: int,
    pub source: Seq<char>,
    pub name: Seq<char>,
}

impl View for ScriptKey {
    type V = ScriptKeyView;

    open spec fn view(&self) -> ScriptKeyView {
        ScriptKeyView { dir_index: self.dir_index as int, source: self.source@, name: self.name@ }
    }
}

impl ScriptKey {
    /// Whether this is the script of a name.
    pub fn is(&self, dir_index: usize, source: SourceId, name: &str) -> (r: bool)
        ensures
            r == (self@ == (ScriptKeyView {
                dir_index: dir_index as int,
                source: source@,
                name: name@,
            })),
    {
        self.dir_index == dir_index && self.source.same(source) && same_text(
            self.name.as_str(),
            name,
        )
    }
}

/// The process that each script was started as. A script has one entry.
pub struct ProcTable {
    entries: Vec<(ScriptKey, ProcId)>,
}

/// No script has two entries.
spec fn all_differ(entries: Seq<(ScriptKey, ProcId)>) -> bool {
    forall|i: int, j: int|
        0 <= i < j < entries.len() ==> (#[trigger] entries[i]).0@ != (#[trigger] entries[j]).0@
}

/// What a list of entries says.
spec fn table(entries: Seq<(ScriptKey, ProcId)>) -> Map<ScriptKeyView, ProcId>
    decreases entries.len(),
{
    if entries.len() == 0 {
        Map::empty()
    } else {
        table(entries.drop_last()).insert(entries.last().0@, entries.last().1)
    }
}

impl View for ProcTable {
    type V = Map<ScriptKeyView, ProcId>;

    closed spec fn view(&self) -> Map<ScriptKeyView, ProcId> {
        table(self.entries@)
    }
}

/// The process of a script, where it has one.
pub open spec fn process_of(
    started: Map<ScriptKeyView, ProcId>,
    dir_index: int,
    source: Seq<char>,
    name: Seq<char>,
) -> Option<ProcId> {
    let key = ScriptKeyView { dir_index, source, name };
    if started.dom().contains(key) {
        Some(started[key])
    } else {
        None
    }
}

/// The script of an entry is in the table.
proof fn lemma_entry(entries: Seq<(ScriptKey, ProcId)>, i: int)
    requires
        0 <= i < entries.len(),
    ensures
        table(entries).dom().contains(entries[i].0@),
    decreases entries.len(),
{
    if i < entries.len() - 1 {
        lemma_entry(entries.drop_last(), i);
    }
}

/// One more entry, of a script that has none yet.
proof fn lemma_entry_pushed(entries: Seq<(ScriptKey, ProcId)>, entry: (ScriptKey, ProcId))
    requires
        all_differ(entries),
        !table(entries).dom().contains(entry.0@),
    ensures
        all_differ(entries.push(entry)),
        table(entries.push(entry)) == table(entries).insert(entry.0@, entry.1),
{
    let longer = entries.push(entry);
    assert(longer.drop_last() =~= entries);
    assert forall|i: int, j: int| 0 <= i < j < longer.len() implies (#[trigger] longer[i]).0@ != (
    #[trigger] longer[j]).0@ by {
        assert(longer[i] == entries[i]);
        if j < entries.len() {
            assert(longer[j] == entries[j]);
        } else {
            lemma_entry(entries, i);
        }
    }
}

/// The first entries say nothing of the script that comes next.
proof fn lemma_next_is_new(entries: Seq<(ScriptKey, ProcId)>, n: int, i: int)
    requires
        all_differ(entries),
        0 <= n <= i < entries.len(),
    ensures
        !table(entries.take(n)).dom().contains(entries[i].0@),
    decreases n,
{
    if n > 0 {
        assert(entries.take(n).drop_last() =~= entries.take(n - 1));
        assert(entries.take(n).last() == entries[n - 1]);
        lemma_next_is_new(entries, n - 1, i);
        assert(entries[n - 1].0@ != entries[i].0@);
    }
}

impl ProcTable {
    /// No script has two entries.
    #[verifier::type_invariant]
    spec fn kept_once(self) -> bool {
        all_differ(self.entries@)
    }

    /// No script was started.
    pub fn new() -> (started: ProcTable)
        ensures
            started@ == Map::<ScriptKeyView, ProcId>::empty(),
    {
        ProcTable { entries: Vec::new() }
    }

    /// The process of a script, where it has one.
    pub fn get(&self, dir_index: usize, source: SourceId, name: &str) -> (id: Option<ProcId>)
        ensures
            id == process_of(self@, dir_index as int, source@, name@),
    {
        let mut n: usize = self.entries.len();
        assert(self.entries@.take(n as int) =~= self.entries@);
        while n > 0
            invariant
                n <= self.entries.len(),
                process_of(self@, dir_index as int, source@, name@) == process_of(
                    table(self.entries@.take(n as int)),
                    dir_index as int,
                    source@,
                    name@,
                ),
            decreases n,
        {
            let entry = &self.entries[n - 1];
            proof {
                let longer = self.entries@.take(n as int);
                assert(longer.drop_last() =~= self.entries@.take(n - 1));
                assert(longer.last() == *entry);
            }
            if entry.0.is(dir_index, source, name) {
                return Some(entry.1);
            }
            n -= 1;
        }
        None
    }

    /// Forgets the process of a script, and says which it was.
    pub fn remove(&mut self, dir_index: usize, source: SourceId, name: &str) -> (id: Option<ProcId>)
        ensures
            id == process_of(old(self)@, dir_index as int, source@, name@),
            final(self)@ == old(self)@.remove(
                ScriptKeyView { dir_index: dir_index as int, source: source@, name: name@ },
            ),
    {
        proof {
            use_type_invariant(&*self);
        }
        let id = self.get(dir_index, source, name);
        let ghost key = ScriptKeyView { dir_index: dir_index as int, source: source@, name: name@ };
        let mut kept: Vec<(ScriptKey, ProcId)> = Vec::new();
        let ghost all = self.entries@;
        let mut i: usize = 0;
        assert(all.take(0) =~= Seq::empty());
        assert(table(kept@) =~= table(all.take(0)).remove(key));
        while i < self.entries.len()
            invariant
                i <= self.entries.len(),
                self.entries@ == all,
                all_differ(all),
                all_differ(kept@),
                key == (ScriptKeyView {
                    dir_index: dir_index as int,
                    source: source@,
                    name: name@,
                }),
                table(kept@) == table(all.take(i as int)).remove(key),
            decreases self.entries.len() - i,
        {
            let entry = &self.entries[i];
            let ghost before = kept@;
            proof {
                let longer = all.take(i + 1);
                assert(longer.drop_last() =~= all.take(i as int));
                assert(longer.last() == *entry);
            }
            if !entry.0.is(dir_index, source, name) {
                let copy = ScriptKey {
                    dir_index: entry.0.dir_index,
                    source: entry.0.source,
                    name: entry.0.name.clone(),
                };
                kept.push((copy, entry.1));
                proof {
                    lemma_next_is_new(all, i as int, i as int);
                    lemma_entry_pushed(before, kept@.last());
                    assert(kept@ =~= before.push(kept@.last()));
                    assert(table(kept@) =~= table(all.take(i + 1)).remove(key));
                }
            } else {
                assert(table(kept@) =~= table(all.take(i + 1)).remove(key));
            }
            i += 1;
        }
        assert(all.take(i as int) =~= all);
        self.entries = kept;
        id
    }

    /// Says which process a script was started as.
    pub fn insert(&mut self, key: ScriptKey, id: ProcId)
        ensures
            final(self)@ == old(self)@.insert(key@, id),
    {
        let ghost view = key@;
        let ghost before = self@;
        self.remove(key.dir_index, key.source, key.name.as_str());
        proof {
            use_type_invariant(&*self);
        }
        let ghost shorter = self.entries@;
        let mut entries: Vec<(ScriptKey, ProcId)> = Vec::new();
        std::mem::swap(&mut entries, &mut self.entries);
        entries.push((key, id));
        proof {
            lemma_entry_pushed(shorter, entries@.last());
            assert(entries@ =~= shorter.push(entries@.last()));
        }
        self.entries = entries;
        assert(self@ =~= before.insert(view, id));
    }
}

} // verus!
