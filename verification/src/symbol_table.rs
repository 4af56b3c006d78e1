//! The symbol table: a mapping from symbol names to addresses, preloaded
//! with the architecture's fixed symbols. Entries are kept as an
//! association list whose latest entry for a name wins, so re-adding a
//! name overwrites its address.

use vstd::prelude::*;
use vstd::string::*;

use crate::text::str_eq;

verus! {

/// The mapping an entry list denotes: later entries overwrite earlier ones.
pub open spec fn map_of(entries: Seq<(String, usize)>) -> Map<Seq<char>, usize>
    decreases entries.len(),
{
    if entries.len() == 0 {
        Map::empty()
    } else {
        map_of(entries.drop_last()).insert(entries.last().0@, entries.last().1)
    }
}

/// The fixed symbols every translation run starts from: the register
/// pointers, the sixteen virtual registers and the memory-mapped devices.
pub open spec fn predefined_symbols() -> Map<Seq<char>, usize> {
    Map::empty()
        .insert("SP"@, 0)
        .insert("LCL"@, 1)
        .insert("ARG"@, 2)
        .insert("THIS"@, 3)
        .insert("THAT"@, 4)
        .insert("R0"@, 0)
        .insert("R1"@, 1)
        .insert("R2"@, 2)
        .insert("R3"@, 3)
        .insert("R4"@, 4)
        .insert("R5"@, 5)
        .insert("R6"@, 6)
        .insert("R7"@, 7)
        .insert("R8"@, 8)
        .insert("R9"@, 9)
        .insert("R10"@, 10)
        .insert("R11"@, 11)
        .insert("R12"@, 12)
        .insert("R13"@, 13)
        .insert("R14"@, 14)
        .insert("R15"@, 15)
        .insert("SCREEN"@, 16384)
        .insert("KBD"@, 24576)
}

/// A symbol table, seen in contracts as the map it denotes.
pub struct SymbolTable {
    entries: Vec<(String, usize)>,
}

impl View for SymbolTable {
    type V = Map<Seq<char>, usize>;

    closed spec fn view(&self) -> Map<Seq<char>, usize> {
        map_of(self.entries@)
    }
}

proof fn lemma_map_of_push(entries: Seq<(String, usize)>, name: String, address: usize)
    ensures
        map_of(entries.push((name, address))) == map_of(entries).insert(name@, address),
{
    assert(entries.push((name, address)).drop_last() =~= entries);
}

proof fn lemma_map_of_contains(entries: Seq<(String, usize)>, key: Seq<char>)
    ensures
        map_of(entries).contains_key(key) <==> exists|k: int|
            0 <= k < entries.len() && (#[trigger] entries[k]).0@ == key,
    decreases entries.len(),
{
    if entries.len() > 0 {
        lemma_map_of_contains(entries.drop_last(), key);
        let n = entries.len() as int;
        if entries.last().0@ == key {
            assert(entries[n - 1].0@ == key);
        } else if map_of(entries).contains_key(key) {
            let k = choose|k: int|
                0 <= k < entries.drop_last().len() && (#[trigger] entries.drop_last()[k]).0@
                    == key;
            assert(entries[k].0@ == key);
        } else {
            assert forall|k: int| 0 <= k < n implies (#[trigger] entries[k]).0@ != key by {
                if k < n - 1 {
                    assert(entries.drop_last()[k] == entries[k]);
                }
            }
        }
    }
}

proof fn lemma_map_of_last_wins(entries: Seq<(String, usize)>, i: int)
    requires
        0 <= i < entries.len(),
        forall|k: int| i < k < entries.len() ==> (#[trigger] entries[k]).0@ != entries[i].0@,
    ensures
        map_of(entries).contains_key(entries[i].0@),
        map_of(entries)[entries[i].0@] == entries[i].1,
    decreases entries.len(),
{
    let n = entries.len() as int;
    if i == n - 1 {
    } else {
        assert forall|k: int| i < k < n - 1 implies (#[trigger] entries.drop_last()[k]).0@
            != entries.drop_last()[i].0@ by {
            assert(entries.drop_last()[k] == entries[k]);
        }
        lemma_map_of_last_wins(entries.drop_last(), i);
        assert(entries.last().0@ != entries[i].0@);
    }
}

impl SymbolTable {
    /// A fresh table holding exactly the predefined symbols.
    pub fn new() -> (t: SymbolTable)
        ensures
            t@ == predefined_symbols(),
    {
        let mut t = SymbolTable { entries: Vec::new() };
        proof {
            assert(t.entries@ =~= Seq::<(String, usize)>::empty());
        }
        t.add_entry(String::from_str("SP"), 0);
        t.add_entry(String::from_str("LCL"), 1);
        t.add_entry(String::from_str("ARG"), 2);
        t.add_entry(String::from_str("THIS"), 3);
        t.add_entry(String::from_str("THAT"), 4);
        t.add_entry(String::from_str("R0"), 0);
        t.add_entry(String::from_str("R1"), 1);
        t.add_entry(String::from_str("R2"), 2);
        t.add_entry(String::from_str("R3"), 3);
        t.add_entry(String::from_str("R4"), 4);
        t.add_entry(String::from_str("R5"), 5);
        t.add_entry(String::from_str("R6"), 6);
        t.add_entry(String::from_str("R7"), 7);
        t.add_entry(String::from_str("R8"), 8);
        t.add_entry(String::from_str("R9"), 9);
        t.add_entry(String::from_str("R10"), 10);
        t.add_entry(String::from_str("R11"), 11);
        t.add_entry(String::from_str("R12"), 12);
        t.add_entry(String::from_str("R13"), 13);
        t.add_entry(String::from_str("R14"), 14);
        t.add_entry(String::from_str("R15"), 15);
        t.add_entry(String::from_str("SCREEN"), 16384);
        t.add_entry(String::from_str("KBD"), 24576);
        t
    }

    /// Binds `symbol` to `address`, overwriting any earlier binding.
    pub fn add_entry(&mut self, symbol: String, address: usize)
        ensures
            final(self)@ == old(self)@.insert(symbol@, address),
    {
        proof {
            lemma_map_of_push(self.entries@, symbol, address);
        }
        self.entries.push((symbol, address));
    }

    /// Whether `symbol` is bound.
    pub fn contains(&self, symbol: &str) -> (r: bool)
        ensures
            r == self@.contains_key(symbol@),
    {
        let n = self.entries.len();
        let mut i: usize = 0;
        while i < n
            invariant
                0 <= i <= n,
                n == self.entries@.len(),
                forall|k: int| 0 <= k < i ==> (#[trigger] self.entries@[k]).0@ != symbol@,
            decreases n - i,
        {
            if str_eq(self.entries[i].0.as_str(), symbol) {
                proof {
                    lemma_map_of_contains(self.entries@, symbol@);
                }
                return true;
            }
            i = i + 1;
        }
        proof {
            lemma_map_of_contains(self.entries@, symbol@);
        }
        false
    }

    /// The address bound to a present symbol.
    pub fn get_address(&self, symbol: &str) -> (r: usize)
        requires
            self@.contains_key(symbol@),
        ensures
            r == self@[symbol@],
    {
        let n = self.entries.len();
        let mut i: usize = n;
        while i > 0
            invariant
                0 <= i <= n,
                n == self.entries@.len(),
                forall|k: int| i <= k < n ==> (#[trigger] self.entries@[k]).0@ != symbol@,
            decreases i,
        {
            i = i - 1;
            if str_eq(self.entries[i].0.as_str(), symbol) {
                proof {
                    lemma_map_of_last_wins(self.entries@, i as int);
                }
                return self.entries[i].1;
            }
        }
        proof {
            lemma_map_of_contains(self.entries@, symbol@);
        }
        vstd::pervasive::unreached()
    }
}

/// Re-adding a name with the same address leaves every lookup unchanged;
/// re-adding it with a new address overwrites that name's binding and no
/// other.
pub proof fn lemma_add_entry_overwrites(
    m: Map<Seq<char>, usize>,
    name: Seq<char>,
    a1: usize,
    a2: usize,
)
    ensures
        m.insert(name, a1).insert(name, a1) == m.insert(name, a1),
        m.insert(name, a1).insert(name, a2) == m.insert(name, a2),
        m.insert(name, a2)[name] == a2,
        forall|other: Seq<char>|
            other != name && m.contains_key(other) ==> m.insert(name, a2)[other] == m[other],
{
    assert(m.insert(name, a1).insert(name, a1) =~= m.insert(name, a1));
    assert(m.insert(name, a1).insert(name, a2) =~= m.insert(name, a2));
}

} // verus!
