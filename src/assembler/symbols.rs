use vstd::prelude::*;

verus! {

/// The id of a symbol: dense, handed out from zero in order.
#[derive(Debug, Clone, Copy, PartialEq, Eq, Structural, PartialOrd, Ord, Hash)]
pub struct SymbolId(pub usize);

/// What a symbol names.
#[derive(Debug, Clone, Copy, PartialEq, Eq, Structural, Default)]
pub enum SymbolKind {
    Label,
    Directive,
    Parameter,
    /// Neither of the above: the kind given to the text of a lexical error.
    #[default]
    Unknown,
}

/// A symbol's name and metadata.
#[derive(Debug)]
pub struct Symbol {
    pub name: String,
    pub kind: SymbolKind,
    pub value: Option<u32>,
    pub line: usize,
}

/// A symbol as a mathematical value.
pub struct SymbolView {
    pub name: Seq<char>,
    pub kind: SymbolKind,
    pub value: Option<u32>,
    pub line: usize,
}

impl View for Symbol {
    type V = SymbolView;

    open spec fn view(&self) -> SymbolView {
        SymbolView { name: self.name@, kind: self.kind, value: self.value, line: self.line }
    }
}

/// The symbol with its value set to `v`.
pub open spec fn with_value(s: SymbolView, v: u32) -> SymbolView {
    SymbolView { value: Some(v), ..s }
}

impl Symbol {
    /// The symbol with its value set to `v`.
    pub fn with_value(self, v: u32) -> (r: Symbol)
        ensures
            r@ == with_value(self@, v),
    {
        Symbol { value: Some(v), ..self }
    }

    /// A copy of the symbol.
    pub fn copy(&self) -> (r: Symbol)
        ensures
            r@ == self@,
    {
        Symbol { name: self.name.clone(), kind: self.kind, value: self.value, line: self.line }
    }
}

/// Slot `i` holds the symbol with id `i`, or nothing where the id was reserved without one.
pub type Slots = Seq<Option<SymbolView>>;

/// Whether slot `i` holds a symbol called `name`.
pub open spec fn slot_named(t: Slots, i: int, name: Seq<char>) -> bool {
    t[i] is Some && t[i]->Some_0.name == name
}

/// The id of the symbol called `name`, if there is one.
pub open spec fn id_of(t: Slots, name: Seq<char>) -> Option<usize> {
    if exists|i: int| 0 <= i < t.len() && slot_named(t, i, name) {
        Some((choose|i: int| 0 <= i < t.len() && slot_named(t, i, name)) as usize)
    } else {
        None
    }
}

/// No two symbols share a name.
pub open spec fn names_unique(t: Slots) -> bool {
    forall|i: int, j: int|
        0 <= i < t.len() && 0 <= j < t.len() && t[i] is Some && t[j] is Some && #[trigger] t[i]->Some_0.name
            == #[trigger] t[j]->Some_0.name ==> i == j
}

/// The table after inserting `name`, and the id that comes back: the existing id when the
/// name is present, else a fresh id holding the new symbol.
pub open spec fn insert_spec(t: Slots, name: Seq<char>, kind: SymbolKind, value: Option<u32>, line: usize) -> (Slots, usize) {
    match id_of(t, name) {
        Some(id) => (t, id),
        None => (t.push(Some(SymbolView { name, kind, value, line })), t.len() as usize),
    }
}

/// In a table without duplicate names, `id_of` finds the slot that holds the name.
pub proof fn lemma_id_of_slot(t: Slots, i: int, name: Seq<char>)
    requires
        names_unique(t),
        0 <= i < t.len(),
        slot_named(t, i, name),
    ensures
        id_of(t, name) == Some(i as usize),
{
    let c = choose|k: int| 0 <= k < t.len() && slot_named(t, k, name);
    assert(slot_named(t, c, name));
}

/// Inserting a name twice gives the same id both times and leaves the table as the first
/// insertion made it; looking the name up afterwards gives that id.
pub proof fn lemma_insert_interns(
    t: Slots,
    name: Seq<char>,
    kind1: SymbolKind,
    value1: Option<u32>,
    line1: usize,
    kind2: SymbolKind,
    value2: Option<u32>,
    line2: usize,
)
    requires
        names_unique(t),
        t.len() < usize::MAX,
    ensures
        ({
            let (t1, id1) = insert_spec(t, name, kind1, value1, line1);
            let (t2, id2) = insert_spec(t1, name, kind2, value2, line2);
            &&& id1 == id2
            &&& t2 == t1
            &&& id_of(t1, name) == Some(id1)
        }),
{
    let (t1, id1) = insert_spec(t, name, kind1, value1, line1);
    match id_of(t, name) {
        Some(id) => {
            let c = choose|k: int| 0 <= k < t.len() && slot_named(t, k, name);
            assert(slot_named(t, c, name));
        },
        None => {
            assert(slot_named(t1, t.len() as int, name));
            assert(names_unique(t1)) by {
                assert forall|i: int, j: int|
                    0 <= i < t1.len() && 0 <= j < t1.len() && t1[i] is Some && t1[j] is Some
                        && #[trigger] t1[i]->Some_0.name == #[trigger] t1[j]->Some_0.name
                    implies i == j by {
                    if i < t.len() && j == t.len() {
                        assert(slot_named(t, i, name));
                    }
                    if j < t.len() && i == t.len() {
                        assert(slot_named(t, j, name));
                    }
                }
            }
            lemma_id_of_slot(t1, t.len() as int, name);
        },
    }
}

/// Symbols by id, and a pool that keeps one copy of each distinct name.
#[derive(Debug, Default)]
pub struct SymbolTable {
    slots: Vec<Option<Symbol>>,
    strings: Vec<String>,
}

impl SymbolTable {
    /// The symbols, slot by slot.
    pub closed spec fn slots(&self) -> Slots {
        self.slots@.map_values(|s: Option<Symbol>| match s {
            Some(s) => Some(s@),
            None => None,
        })
    }

    /// The interned strings.
    pub closed spec fn pool(&self) -> Seq<Seq<char>> {
        self.strings@.map_values(|s: String| s@)
    }

    /// Names are unique among symbols and in the pool; ids fit a `usize`.
    pub closed spec fn wf(&self) -> bool {
        &&& names_unique(self.slots())
        &&& self.pool().no_duplicates()
    }

    /// An empty table.
    pub fn new() -> (t: SymbolTable)
        ensures
            t.wf(),
            t.slots() == Seq::<Option<SymbolView>>::empty(),
            t.pool() == Seq::<Seq<char>>::empty(),
    {
        let t = SymbolTable { slots: Vec::new(), strings: Vec::new() };
        assert(t.slots() =~= Seq::<Option<SymbolView>>::empty());
        assert(t.pool() =~= Seq::<Seq<char>>::empty());
        t
    }

    fn find_string(&self, s: &String) -> (r: Option<usize>)
        ensures
            match r {
                Some(i) => i < self.pool().len() && self.pool()[i as int] == s@,
                None => !self.pool().contains(s@),
            },
    {
        let mut i: usize = 0;
        while i < self.strings.len()
            invariant
                i <= self.strings@.len(),
                forall|j: int| 0 <= j < i ==> self.pool()[j] != s@,
            decreases self.strings@.len() - i,
        {
            if self.strings[i] == *s {
                return Some(i);
            }
            i = i + 1;
        }
        None
    }

    /// The single stored copy of `s`, added to the pool when it is new.
    pub fn intern_string(&mut self, s: String) -> (r: String)
        requires
            old(self).wf(),
        ensures
            final(self).wf(),
            r@ == s@,
            final(self).slots() == old(self).slots(),
            old(self).pool().contains(s@) ==> final(self).pool() == old(self).pool(),
            !old(self).pool().contains(s@) ==> final(self).pool() == old(self).pool().push(s@),
    {
        match self.find_string(&s) {
            Some(i) => self.strings[i].clone(),
            None => {
                let copy = s.clone();
                self.strings.push(s);
                proof {
                    assert(self.pool() =~= old(self).pool().push(copy@));
                }
                copy
            },
        }
    }

    /// The single stored copy of `s`, added to the pool when it is new.
    pub fn intern_str(&mut self, s: &str) -> (r: String)
        requires
            old(self).wf(),
        ensures
            final(self).wf(),
            r@ == s@,
            final(self).slots() == old(self).slots(),
            old(self).pool().contains(s@) ==> final(self).pool() == old(self).pool(),
            !old(self).pool().contains(s@) ==> final(self).pool() == old(self).pool().push(s@),
    {
        self.intern_string(s.to_owned())
    }

    /// Inserts a symbol called `name` unless one exists; either way returns its id.
    pub fn insert(&mut self, name: &str, kind: SymbolKind, value: Option<u32>, line: usize) -> (id: SymbolId)
        requires
            old(self).wf(),
        ensures
            final(self).wf(),
            (final(self).slots(), id.0) == insert_spec(old(self).slots(), name@, kind, value, line),
    {
        let owned = name.to_owned();
        match self.find_name(&owned) {
            Some(existing) => existing,
            None => {
                let interned = self.intern_string(owned);
                let id = SymbolId(self.slots.len());
                let ghost before = self.slots();
                self.slots.push(Some(Symbol { name: interned, kind, value, line }));
                proof {
                    assert(self.slots() =~= before.push(
                        Some(SymbolView { name: name@, kind, value, line }),
                    ));
                    assert forall|i: int|
                        0 <= i < before.len() implies !slot_named(before, i, name@) by {
                        if slot_named(before, i, name@) {
                            assert(exists|k: int| 0 <= k < before.len() && slot_named(before, k, name@));
                        }
                    }
                    assert(names_unique(self.slots())) by {
                        assert forall|i: int, j: int|
                            0 <= i < self.slots().len() && 0 <= j < self.slots().len()
                                && self.slots()[i] is Some && self.slots()[j] is Some
                                && self.slots()[i]->Some_0.name == self.slots()[j]->Some_0.name
                            implies i == j by {
                            if i < before.len() && j == before.len() {
                                assert(slot_named(before, i, name@));
                            }
                            if j < before.len() && i == before.len() {
                                assert(slot_named(before, j, name@));
                            }
                        }
                    }
                }
                id
            },
        }
    }

    /// Replaces the symbol with id `id` by what `f` makes of it; nothing happens when there
    /// is no such symbol. `f` keeps the name.
    pub fn update<F: FnOnce(Symbol) -> Symbol>(&mut self, id: SymbolId, f: F)
        requires
            old(self).wf(),
            forall|s: Symbol| f.requires((s,)),
            forall|s: Symbol, r: Symbol| f.ensures((s,), r) ==> r.name@ == s.name@,
        ensures
            final(self).wf(),
            final(self).pool() == old(self).pool(),
            id.0 < old(self).slots().len() && old(self).slots()[id.0 as int] is Some
                ==> exists|s: Symbol, r: Symbol|
                s@ == old(self).slots()[id.0 as int]->Some_0 && f.ensures((s,), r)
                    && final(self).slots() == old(self).slots().update(id.0 as int, Some(r@)),
            !(id.0 < old(self).slots().len() && old(self).slots()[id.0 as int] is Some)
                ==> final(self).slots() == old(self).slots(),
    {
        if id.0 < self.slots.len() {
            let current = match &self.slots[id.0] {
                Some(s) => s.copy(),
                None => return,
            };
            let ghost s = current;
            let ghost before = self.slots();
            let r = f(current);
            let ghost rv = r@;
            self.slots[id.0] = Some(r);
            proof {
                assert(self.slots() =~= before.update(id.0 as int, Some(rv)));
                assert(names_unique(self.slots())) by {
                    assert forall|i: int, j: int|
                        0 <= i < self.slots().len() && 0 <= j < self.slots().len()
                            && self.slots()[i] is Some && self.slots()[j] is Some
                            && self.slots()[i]->Some_0.name == self.slots()[j]->Some_0.name
                        implies i == j by {
                        assert(before[i] is Some && before[j] is Some);
                        assert(before[i]->Some_0.name == before[j]->Some_0.name);
                    }
                }
            }
        }
    }

    /// Reserves the next id, with no symbol behind it.
    pub fn next_id(&mut self) -> (id: SymbolId)
        requires
            old(self).wf(),
        ensures
            final(self).wf(),
            id.0 == old(self).slots().len(),
            final(self).slots() == old(self).slots().push(None),
            final(self).pool() == old(self).pool(),
    {
        let id = SymbolId(self.slots.len());
        self.slots.push(None);
        proof {
            assert(self.slots() =~= old(self).slots().push(None));
        }
        id
    }

    fn find_name(&self, n: &String) -> (r: Option<SymbolId>)
        requires
            self.wf(),
        ensures
            r == match id_of(self.slots(), n@) {
                Some(i) => Some(SymbolId(i)),
                None => None::<SymbolId>,
            },
            r is Some ==> r->Some_0.0 < self.slots().len(),
    {
        let mut i: usize = 0;
        while i < self.slots.len()
            invariant
                i <= self.slots@.len(),
                self.wf(),
                forall|j: int| 0 <= j < i ==> !slot_named(self.slots(), j, n@),
            decreases self.slots@.len() - i,
        {
            match &self.slots[i] {
                Some(s) => {
                    if s.name == *n {
                        assert(slot_named(self.slots(), i as int, n@));
                        let ghost c = choose|k: int| 0 <= k < self.slots().len() && slot_named(self.slots(), k, n@);
                        assert(c == i);
                        return Some(SymbolId(i));
                    }
                },
                None => {},
            }
            i = i + 1;
        }
        None
    }

    /// The id of the symbol called `n`, if there is one.
    pub fn get_id(&self, n: &str) -> (r: Option<SymbolId>)
        requires
            self.wf(),
        ensures
            r == match id_of(self.slots(), n@) {
                Some(i) => Some(SymbolId(i)),
                None => None::<SymbolId>,
            },
    {
        self.find_name(&n.to_owned())
    }

    /// A copy of the symbol with id `id`, if there is one.
    pub fn get_symbol(&self, id: &SymbolId) -> (r: Option<Symbol>)
        ensures
            id.0 < self.slots().len() && self.slots()[id.0 as int] is Some ==> r is Some && r->Some_0@
                == self.slots()[id.0 as int]->Some_0,
            !(id.0 < self.slots().len() && self.slots()[id.0 as int] is Some) ==> r is None,
    {
        if id.0 < self.slots.len() {
            match &self.slots[id.0] {
                Some(s) => Some(s.copy()),
                None => None,
            }
        } else {
            None
        }
    }
}

} // verus!
