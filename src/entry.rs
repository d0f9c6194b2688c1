use vstd::prelude::*;

verus! {

/// Last-modified time of an archive entry, in the two 16-bit words of the
/// MS-DOS format that zip archives store.
#[derive(Clone, Copy, Debug, PartialEq, Eq, Structural)]
pub struct Timestamp {
    pub date: u16,
    pub time: u16,
}

/// One entry of a package: its name, its uncompressed content, its
/// last-modified time and its unix permission bits (0 where the source had none).
pub struct Entry {
    pub name: String,
    pub data: Vec<u8>,
    pub modified: Timestamp,
    pub mode: u32,
}

/// What an entry is, as plain values.
pub ghost struct EntryModel {
    pub name: Seq<char>,
    pub data: Seq<u8>,
    pub modified: Timestamp,
    pub mode: u32,
}

impl View for Entry {
    type V = EntryModel;

    open spec fn view(&self) -> EntryModel {
        EntryModel { name: self.name@, data: self.data@, modified: self.modified, mode: self.mode }
    }
}

/// The models of a sequence of entries.
pub open spec fn entries_model(v: Seq<Entry>) -> Seq<EntryModel> {
    v.map_values(|e: Entry| e@)
}

/// The content an entry gets in the rebuilt archive: the replacement stored
/// under its name, if any, else its own bytes.
pub open spec fn rebuilt_entry(e: EntryModel, repl: Map<Seq<char>, Seq<u8>>) -> EntryModel {
    EntryModel {
        data: if repl.contains_key(e.name) { repl[e.name] } else { e.data },
        ..e
    }
}

/// The entries of the rebuilt archive: one per source entry, in source order.
pub open spec fn rebuilt(src: Seq<EntryModel>, repl: Map<Seq<char>, Seq<u8>>) -> Seq<EntryModel> {
    src.map_values(|e: EntryModel| rebuilt_entry(e, repl))
}

/// The replacement set: resized content keyed by entry name, each name once.
pub struct ReplacementSet {
    names: Vec<String>,
    data: Vec<Vec<u8>>,
}

impl ReplacementSet {
    pub closed spec fn wf(&self) -> bool {
        &&& self.names.len() == self.data.len()
        &&& forall|i: int, j: int|
            0 <= i < j < self.names.len() ==> self.names[i]@ != self.names[j]@
    }

    spec fn index_of(&self, k: Seq<char>) -> int {
        choose|i: int| 0 <= i < self.names.len() && self.names[i]@ == k
    }

    pub closed spec fn view(&self) -> Map<Seq<char>, Seq<u8>> {
        Map::new(
            |k: Seq<char>| exists|i: int| 0 <= i < self.names.len() && self.names[i]@ == k,
            |k: Seq<char>| self.data[self.index_of(k)]@,
        )
    }

    proof fn lemma_at(&self, i: int)
        requires
            self.wf(),
            0 <= i < self.names.len(),
        ensures
            self@.contains_key(self.names[i]@),
            self@[self.names[i]@] == self.data[i]@,
    {
        let k = self.names[i]@;
        assert(exists|j: int| 0 <= j < self.names.len() && self.names[j]@ == k);
        let j = self.index_of(k);
        assert(i == j);
    }

    /// An empty set.
    pub fn new() -> (r: Self)
        ensures
            r.wf(),
            r@ == Map::<Seq<char>, Seq<u8>>::empty(),
    {
        let r = ReplacementSet { names: Vec::new(), data: Vec::new() };
        assert(r@ =~= Map::<Seq<char>, Seq<u8>>::empty());
        r
    }

    /// Position of `name` among the stored names.
    fn find(&self, name: &String) -> (r: Option<usize>)
        requires
            self.wf(),
        ensures
            r matches Some(i) ==> i < self.names.len() && self.names[i as int]@ == name@,
            r is None ==> !self@.contains_key(name@),
    {
        let mut i: usize = 0;
        while i < self.names.len()
            invariant
                i <= self.names.len(),
                forall|j: int| 0 <= j < i ==> self.names[j]@ != name@,
            decreases self.names.len() - i,
        {
            if self.names[i] == *name {
                return Some(i);
            }
            i = i + 1;
        }
        None
    }

    /// The content stored under `name`.
    pub fn get(&self, name: &String) -> (r: Option<&Vec<u8>>)
        requires
            self.wf(),
        ensures
            r is None <==> !self@.contains_key(name@),
            r matches Some(v) ==> v@ == self@[name@],
    {
        match self.find(name) {
            Some(i) => {
                proof {
                    self.lemma_at(i as int);
                }
                Some(&self.data[i])
            },
            None => None,
        }
    }

    /// Stores `bytes` under `name`, in place of what was stored there before.
    pub fn insert(&mut self, name: String, bytes: Vec<u8>)
        requires
            old(self).wf(),
        ensures
            final(self).wf(),
            final(self)@ == old(self)@.insert(name@, bytes@),
    {
        let ghost k = name@;
        let ghost v = bytes@;
        match self.find(&name) {
            Some(i) => {
                self.data.set(i, bytes);
                proof {
                    let o = *old(self);
                    assert forall|kk: Seq<char>| #[trigger] self@.contains_key(kk)
                        <==> o@.insert(k, v).contains_key(kk) by {
                        if o@.contains_key(kk) {
                            let j = choose|j: int| 0 <= j < o.names.len() && o.names[j]@ == kk;
                            assert(self.names[j]@ == kk);
                        }
                        if self@.contains_key(kk) {
                            let j = choose|j: int| 0 <= j < self.names.len() && self.names[j]@ == kk;
                            assert(o.names[j]@ == kk);
                        }
                    }
                    assert forall|kk: Seq<char>| #[trigger] self@.contains_key(kk)
                        implies self@[kk] == o@.insert(k, v)[kk] by {
                        let j = choose|j: int| 0 <= j < self.names.len() && self.names[j]@ == kk;
                        self.lemma_at(j);
                        if j != i {
                            o.lemma_at(j);
                        } else {
                            assert(self.data[j]@ == v);
                        }
                    }
                    assert(self@ =~= o@.insert(k, v));
                }
            },
            None => {
                self.names.push(name);
                self.data.push(bytes);
                proof {
                    let o = *old(self);
                    let n = o.names.len() as int;
                    assert forall|kk: Seq<char>| #[trigger] self@.contains_key(kk)
                        <==> o@.insert(k, v).contains_key(kk) by {
                        if o@.contains_key(kk) {
                            let j = choose|j: int| 0 <= j < o.names.len() && o.names[j]@ == kk;
                            assert(self.names[j]@ == kk);
                        }
                        if kk == k {
                            assert(self.names[n]@ == kk);
                        }
                        if self@.contains_key(kk) && kk != k {
                            let j = choose|j: int| 0 <= j < self.names.len() && self.names[j]@ == kk;
                            assert(o.names[j]@ == kk);
                        }
                    }
                    assert forall|kk: Seq<char>| #[trigger] self@.contains_key(kk)
                        implies self@[kk] == o@.insert(k, v)[kk] by {
                        let j = choose|j: int| 0 <= j < self.names.len() && self.names[j]@ == kk;
                        self.lemma_at(j);
                        if j != n {
                            o.lemma_at(j);
                        } else {
                            assert(self.data[j]@ == v);
                        }
                    }
                    assert(self@ =~= o@.insert(k, v));
                }
            },
        }
    }
}

/// A copy of `v`.
pub(crate) fn copy_bytes(v: &Vec<u8>) -> (r: Vec<u8>)
    ensures
        r@ == v@,
{
    let mut r: Vec<u8> = Vec::with_capacity(v.len());
    let mut i: usize = 0;
    while i < v.len()
        invariant
            i <= v.len(),
            r@ == v@.subrange(0, i as int),
        decreases v.len() - i,
    {
        r.push(v[i]);
        i = i + 1;
        assert(r@ =~= v@.subrange(0, i as int));
    }
    assert(r@ =~= v@);
    r
}

/// Builds the entries of the new archive: every source entry in its order, with
/// its name, time and permission bits, and with the content stored under its
/// name in `repl` where there is one, else its own.
pub fn rebuild_entries(src: &Vec<Entry>, repl: &ReplacementSet) -> (r: Vec<Entry>)
    requires
        repl.wf(),
    ensures
        entries_model(r@) == rebuilt(entries_model(src@), repl@),
{
    let mut out: Vec<Entry> = Vec::with_capacity(src.len());
    let mut i: usize = 0;
    while i < src.len()
        invariant
            i <= src.len(),
            out@.len() == i,
            repl.wf(),
            forall|j: int| 0 <= j < i ==> #[trigger] out@[j]@ == rebuilt_entry(src@[j]@, repl@),
        decreases src.len() - i,
    {
        let e = &src[i];
        let data = match repl.get(&e.name) {
            Some(b) => copy_bytes(b),
            None => copy_bytes(&e.data),
        };
        out.push(Entry { name: e.name.clone(), data, modified: e.modified, mode: e.mode });
        i = i + 1;
    }
    assert(entries_model(out@) =~= rebuilt(entries_model(src@), repl@));
    out
}

} // verus!
