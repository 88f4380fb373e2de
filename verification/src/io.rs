//! The color registry: named color records from an external source, and
//! the exact-match lookup table built from them.
//!
//! Reading and writing the on-disk registry format is delegated to an
//! external deserializer; this module only consumes the resulting
//! ordered list of records.

use vstd::prelude::*;
use vstd::map::*;
use crate::color::{decode_rgb_spec, from_hex, Rgba};
use crate::Error;

verus! {

/// One record of the color registry: a name and its color encoding.
#[derive(Clone, Debug)]
pub struct ColorEntry {
    pub name: String,
    // Color is a hexadecimal 3-component, RGB color with no alpha
    pub color: String,
}

impl Default for ColorEntry {
    fn default() -> (r: ColorEntry)
        ensures
            r.name@ == Seq::<char>::empty(),
            r.color@ == Seq::<char>::empty(),
    {
        ColorEntry { name: String::new(), color: String::new() }
    }
}

/// The color registry: an ordered sequence of records, in the insertion
/// order of the source.
#[derive(Clone, Debug)]
pub struct ColorFile {
    pub entries: Vec<ColorEntry>,
}

impl Default for ColorFile {
    fn default() -> (r: ColorFile)
        ensures
            r.entries@.len() == 0,
    {
        ColorFile { entries: Vec::new() }
    }
}

/// One row of the lookup table: an exact RGBA key and its color name.
#[derive(Clone, Debug)]
pub struct TableEntry {
    pub color: Rgba,
    pub name: String,
}

/// The exact-match lookup table from RGBA samples to color names.
/// Rows keep the first-insertion order of their keys, and keys are
/// pairwise distinct. Built once from a registry, never mutated after.
#[derive(Clone, Debug)]
pub struct LookupTable {
    pub entries: Vec<TableEntry>,
}

impl LookupTable {
    /// Keys are pairwise distinct.
    pub open spec fn wf(&self) -> bool {
        forall|i: int, j: int|
            0 <= i < j < self.entries@.len() ==> (#[trigger] self.entries@[i]).color != (
            #[trigger] self.entries@[j]).color
    }

    /// Whether some row holds the key.
    pub open spec fn contains_color(&self, c: Rgba) -> bool {
        exists|i: int| 0 <= i < self.entries@.len() && (#[trigger] self.entries@[i]).color == c
    }

    /// The index of the row holding the key.
    pub open spec fn idx_of(&self, c: Rgba) -> int {
        choose|i: int| 0 <= i < self.entries@.len() && (#[trigger] self.entries@[i]).color == c
    }

    /// The table as a mathematical map from sample to name.
    pub open spec fn as_map(&self) -> Map<Rgba, Seq<char>> {
        Map::new(
            |c: Rgba| self.contains_color(c),
            |c: Rgba| self.entries@[self.idx_of(c)].name@,
        )
    }

    /// Creates an empty table.
    pub fn new() -> (r: LookupTable)
        ensures
            r.wf(),
            r.entries@.len() == 0,
            r.as_map() == Map::<Rgba, Seq<char>>::empty(),
    {
        let r = LookupTable { entries: Vec::new() };
        proof {
            assert(r.as_map() =~= Map::<Rgba, Seq<char>>::empty());
        }
        r
    }

    /// Finds the row index of a key by linear scan.
    fn find(&self, color: &Rgba) -> (r: Option<usize>)
        ensures
            match r {
                Some(i) => i < self.entries@.len() && self.entries@[i as int].color == *color,
                None => !self.contains_color(*color),
            },
    {
        let mut i: usize = 0;
        while i < self.entries.len()
            invariant
                i <= self.entries@.len(),
                forall|j: int| 0 <= j < i ==> (#[trigger] self.entries@[j]).color != *color,
            decreases self.entries@.len() - i,
        {
            if self.entries[i].color == *color {
                return Some(i);
            }
            i += 1;
        }
        None
    }

    /// Inserts a key-to-name row; a later insert with a key already in
    /// the table overwrites that key's name.
    pub fn insert(&mut self, color: Rgba, name: String)
        requires
            old(self).wf(),
        ensures
            final(self).wf(),
            final(self).as_map() == old(self).as_map().insert(color, name@),
    {
        let ghost prev = *self;
        match self.find(&color) {
            Some(i) => {
                self.entries[i] = TableEntry { color, name };
                proof {
                    assert(forall|j: int|
                        0 <= j < self.entries@.len() && j != i ==> self.entries@[j]
                            == prev.entries@[j]);
                    assert_maps_equal!(
                        self.as_map(),
                        prev.as_map().insert(color, name@),
                        k => {
                            if k == color {
                                let x = self.idx_of(k);
                                assert(self.entries@[i as int].color == k);
                                assert(0 <= x < self.entries@.len() && self.entries@[x].color == k);
                                assert(x == i);
                            } else {
                                if prev.contains_color(k) {
                                    let x = prev.idx_of(k);
                                    assert(0 <= x < prev.entries@.len() && prev.entries@[x].color == k);
                                    assert(self.entries@[x].color == k);
                                    assert(self.contains_color(k));
                                    let y = self.idx_of(k);
                                    assert(0 <= y < self.entries@.len() && self.entries@[y].color == k);
                                    assert(y == x);
                                }
                                if self.contains_color(k) {
                                    let y = self.idx_of(k);
                                    assert(0 <= y < self.entries@.len() && self.entries@[y].color == k);
                                    assert(y != i);
                                    assert(prev.entries@[y].color == k);
                                    assert(prev.contains_color(k));
                                }
                            }
                        }
                    );
                }
            },
            None => {
                let ghost n = self.entries@.len() as int;
                self.entries.push(TableEntry { color, name });
                proof {
                    assert(self.entries@[n].color == color);
                    assert_maps_equal!(
                        self.as_map(),
                        prev.as_map().insert(color, name@),
                        k => {
                            if k == color {
                                let x = self.idx_of(k);
                                assert(0 <= x < self.entries@.len() && self.entries@[x].color == k);
                                assert(x == n);
                            } else {
                                if prev.contains_color(k) {
                                    let x = prev.idx_of(k);
                                    assert(0 <= x < prev.entries@.len() && prev.entries@[x].color == k);
                                    assert(self.entries@[x].color == k);
                                    assert(self.contains_color(k));
                                    let y = self.idx_of(k);
                                    assert(0 <= y < self.entries@.len() && self.entries@[y].color == k);
                                    assert(y < n);
                                    assert(y == x);
                                }
                                if self.contains_color(k) {
                                    let y = self.idx_of(k);
                                    assert(0 <= y < self.entries@.len() && self.entries@[y].color == k);
                                    assert(y != n);
                                    assert(prev.entries@[y].color == k);
                                    assert(prev.contains_color(k));
                                }
                            }
                        }
                    );
                }
            },
        }
    }

    /// Exact lookup of a sample: the name mapped to it, or `None` when
    /// the table holds no such key. No distance metric, no fallback.
    pub fn get(&self, color: &Rgba) -> (r: Option<&String>)
        requires
            self.wf(),
        ensures
            match r {
                Some(n) => self.as_map().contains_key(*color) && n@ == self.as_map()[*color],
                None => !self.as_map().contains_key(*color),
            },
    {
        match self.find(color) {
            Some(i) => {
                proof {
                    let x = self.idx_of(*color);
                    assert(0 <= x < self.entries@.len() && self.entries@[x].color == *color);
                    assert(x == i);
                }
                Some(&self.entries[i].name)
            },
            None => None,
        }
    }
}

/// The table contents a registry determines: entries decoded in order,
/// later entries overwriting earlier ones on the same key.
pub open spec fn table_of(entries: Seq<ColorEntry>) -> Map<Rgba, Seq<char>>
    decreases entries.len(),
{
    if entries.len() == 0 {
        Map::empty()
    } else {
        let prev = table_of(entries.drop_last());
        match decode_rgb_spec(entries.last().color@) {
            Some(c) => prev.insert(c, entries.last().name@),
            None => prev,
        }
    }
}

/// Overwrite on duplicate keys: if a registry entry decodes to a key
/// and no later entry decodes to the same key, the table built from the
/// registry maps that key to exactly that entry's name. In particular,
/// of two entries with the same decoded color and different names, the
/// later one wins.
pub proof fn lemma_table_last_wins(entries: Seq<ColorEntry>, i: int)
    requires
        0 <= i < entries.len(),
        decode_rgb_spec(entries[i].color@) is Some,
        forall|j: int|
            i < j < entries.len() ==> decode_rgb_spec((#[trigger] entries[j]).color@)
                != decode_rgb_spec(entries[i].color@),
    ensures
        table_of(entries).contains_key(decode_rgb_spec(entries[i].color@)->Some_0),
        table_of(entries)[decode_rgb_spec(entries[i].color@)->Some_0] == entries[i].name@,
    decreases entries.len(),
{
    let k = decode_rgb_spec(entries[i].color@)->Some_0;
    if i == entries.len() - 1 {
        assert(entries.last() == entries[i]);
    } else {
        let front = entries.drop_last();
        assert(front[i] == entries[i]);
        lemma_table_last_wins(front, i);
        assert(entries.last() == entries[entries.len() - 1]);
        match decode_rgb_spec(entries.last().color@) {
            Some(c) => {
                assert(c != k);
            },
            None => {},
        }
    }
}

impl ColorFile {
    /// A registry of unnamed entries, one per color encoding, in order.
    pub fn new(colors: Vec<String>) -> (r: ColorFile)
        ensures
            r.entries@.len() == colors@.len(),
            forall|i: int|
                0 <= i < colors@.len() ==> {
                    &&& (#[trigger] r.entries@[i]).name@ == Seq::<char>::empty()
                    &&& r.entries@[i].color@ == colors@[i]@
                },
    {
        let mut entries: Vec<ColorEntry> = Vec::new();
        let mut i: usize = 0;
        while i < colors.len()
            invariant
                i <= colors@.len(),
                entries@.len() == i,
                forall|j: int|
                    0 <= j < i ==> {
                        &&& (#[trigger] entries@[j]).name@ == Seq::<char>::empty()
                        &&& entries@[j].color@ == colors@[j]@
                    },
            decreases colors@.len() - i,
        {
            entries.push(ColorEntry { name: String::new(), color: colors[i].clone() });
            i += 1;
        }
        ColorFile { entries }
    }

    /// Builds the exact-match lookup table: every entry's RGB encoding
    /// is decoded and inserted in registry order, so on duplicate keys
    /// the last entry's name wins. A single undecodable entry aborts
    /// the whole build with `InvalidEncoding` — no silently incomplete
    /// table.
    pub fn create_lookup(&self) -> (r: Result<LookupTable, Error>)
        ensures
            match r {
                Ok(t) => {
                    &&& t.wf()
                    &&& t.as_map() == table_of(self.entries@)
                    &&& forall|i: int|
                        0 <= i < self.entries@.len() ==> decode_rgb_spec(
                            (#[trigger] self.entries@[i]).color@,
                        ) is Some
                },
                Err(e) => {
                    &&& e == Error::InvalidEncoding
                    &&& exists|i: int|
                        0 <= i < self.entries@.len() && decode_rgb_spec(
                            (#[trigger] self.entries@[i]).color@,
                        ) is None
                },
            },
    {
        let mut lookup = LookupTable::new();
        let mut i: usize = 0;
        while i < self.entries.len()
            invariant
                i <= self.entries@.len(),
                lookup.wf(),
                lookup.as_map() == table_of(self.entries@.take(i as int)),
                forall|j: int|
                    0 <= j < i ==> decode_rgb_spec((#[trigger] self.entries@[j]).color@) is Some,
            decreases self.entries@.len() - i,
        {
            let entry = &self.entries[i];
            match from_hex(entry.color.clone()) {
                Ok(c) => {
                    lookup.insert(c, entry.name.clone());
                    proof {
                        let t = self.entries@.take(i as int + 1);
                        assert(t.drop_last() =~= self.entries@.take(i as int));
                        assert(t.last() == self.entries@[i as int]);
                    }
                    i += 1;
                },
                Err(_) => {
                    return Err(Error::InvalidEncoding);
                },
            }
        }
        proof {
            assert(self.entries@.take(self.entries@.len() as int) =~= self.entries@);
        }
        Ok(lookup)
    }
}

} // verus!
