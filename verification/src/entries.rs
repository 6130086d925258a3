//! The entries that a search finds, read one at a time.

use crate::entry::WordEntry;
use crate::error::LookupError;
use crate::lookup::{
    lemma_prefix_readings_first, lemma_prefix_readings_push, lemma_value_readings_push,
    prefix_readings, readings_of_prefix, value_readings,
};
use crate::options::{all_some, somes};
use crate::values::{read_entry, reading_count, readings};
use vstd::pervasive::unreached;
use vstd::prelude::*;

verus! {

/// The entries of the prefixes that a search found, each with the end of its prefix. An entry is
/// read when its turn comes. The view holds what is still to be read, with `None` where an entry is
/// not stored.
#[derive(Debug)]
pub struct PrefixEntries<'a> {
    prefixes: Vec<(usize, u32)>,
    vals: &'a [u8],
    is_system: bool,
    archived: bool,
    /// The number of the prefix whose entries are being read.
    current: usize,
    /// How many of its entries have been read.
    read: usize,
}

/// What is left of a sequence behind its first `n` elements.
spec fn behind<A>(s: Seq<A>, n: int) -> Seq<A> {
    if n <= s.len() {
        s.skip(n)
    } else {
        Seq::empty()
    }
}

impl<'a> View for PrefixEntries<'a> {
    type V = Seq<Option<(usize, WordEntry)>>;

    closed spec fn view(&self) -> Seq<Option<(usize, WordEntry)>> {
        if self.current < self.prefixes@.len() {
            behind(
                readings_of_prefix(
                    self.prefixes@[self.current as int],
                    self.vals@,
                    self.is_system,
                    self.archived,
                ),
                self.read as int,
            ) + prefix_readings(
                self.prefixes@.skip(self.current + 1),
                self.vals@,
                self.is_system,
                self.archived,
            )
        } else {
            Seq::empty()
        }
    }
}

impl<'a> PrefixEntries<'a> {
    /// At the first entry of the prefix `current`, the entries of the prefixes from there on are
    /// still to be read.
    proof fn lemma_at_start(&self)
        requires
            self.read == 0,
            self.current <= self.prefixes@.len(),
        ensures
            self@ == prefix_readings(
                self.prefixes@.skip(self.current as int),
                self.vals@,
                self.is_system,
                self.archived,
            ),
    {
        let left = self.prefixes@.skip(self.current as int);
        if self.current < self.prefixes@.len() {
            lemma_prefix_readings_first(left, self.vals@, self.is_system, self.archived);
            assert(left.drop_first() == self.prefixes@.skip(self.current + 1));
        } else {
            assert(left == Seq::<(usize, u32)>::empty());
        }
    }

    /// The entries of the prefixes `(end, value)`.
    pub(crate) fn new(
        prefixes: Vec<(usize, u32)>,
        vals: &'a [u8],
        is_system: bool,
        archived: bool,
    ) -> (r: Self)
        ensures
            r@ == prefix_readings(prefixes@, vals@, is_system, archived),
    {
        let r = PrefixEntries { prefixes, vals, is_system, archived, current: 0, read: 0 };
        proof {
            r.lemma_at_start();
            assert(prefixes@.skip(0) == prefixes@);
        }
        r
    }

    /// Reads the next entry: `None` behind the last one, and an error where it is not stored.
    pub fn try_next(&mut self) -> (r: Result<Option<(usize, WordEntry)>, LookupError>)
        ensures
            match r {
                Ok(Some(entry)) => {
                    &&& old(self)@.len() > 0 && old(self)@[0] == Some(entry)
                    &&& final(self)@ == old(self)@.drop_first()
                },
                Ok(None) => old(self)@.len() == 0 && final(self)@ == old(self)@,
                Err(err) => {
                    &&& err == LookupError::OutOfRange
                    &&& old(self)@.len() > 0 && old(self)@[0] is None
                    &&& final(self)@ == old(self)@
                },
            },
    {
        while self.current < self.prefixes.len()
            invariant
                self@ == old(self)@,
            decreases self.prefixes@.len() - self.current,
        {
            let (end, val) = self.prefixes[self.current];
            let ghost before = *self;
            let ghost here = readings_of_prefix(
                (end, val),
                self.vals@,
                self.is_system,
                self.archived,
            );
            let count: usize = reading_count(self.vals, self.is_system, self.archived, val);
            if self.read < count {
                assert(self@[0] == here[self.read as int]);
                match read_entry(self.vals, self.is_system, self.archived, val, self.read) {
                    Some(entry) => {
                        self.read += 1;
                        assert(self@ == before@.drop_first());
                        return Ok(Some((end, entry)));
                    },
                    None => {
                        return Err(LookupError::OutOfRange);
                    },
                }
            }
            self.current += 1;
            self.read = 0;
            proof {
                self.lemma_at_start();
                assert(behind(here, before.read as int) == Seq::<
                    Option<(usize, WordEntry)>,
                >::empty());
            }
        }
        Ok(None)
    }

    /// Reads the next entry, which must be stored: `None` behind the last one.
    pub fn next(&mut self) -> (r: Option<(usize, WordEntry)>)
        requires
            old(self)@.len() > 0 ==> old(self)@[0] is Some,
        ensures
            old(self)@.len() > 0 ==> r == old(self)@[0] && final(self)@ == old(self)@.drop_first(),
            old(self)@.len() == 0 ==> r is None && final(self)@ == old(self)@,
    {
        match self.try_next() {
            Ok(entry) => entry,
            Err(_) => unreached(),
        }
    }

    /// Reads all entries, or fails if one is not stored.
    pub fn try_collect(self) -> (r: Result<Vec<(usize, WordEntry)>, LookupError>)
        ensures
            r is Ok <==> all_some(self@),
            r matches Ok(entries) ==> somes(entries@) == self@,
            r matches Err(err) ==> err == LookupError::OutOfRange,
    {
        let mut left = self;
        let mut entries: Vec<(usize, WordEntry)> = Vec::new();
        assert(somes(entries@) + left@ == self@);
        loop
            invariant
                somes(entries@) + left@ == self@,
            decreases left@.len(),
        {
            let ghost read = somes(entries@);
            let ghost before = left@;
            match left.try_next() {
                Ok(Some(entry)) => {
                    entries.push(entry);
                    assert(somes(entries@) + left@ == read + before);
                },
                Ok(None) => {
                    assert(somes(entries@) == self@);
                    return Ok(entries);
                },
                Err(err) => {
                    assert(self@[read.len() as int] is None);
                    return Err(err);
                },
            }
        }
    }

    /// Reads all entries, which must be stored.
    pub fn collect(self) -> (entries: Vec<(usize, WordEntry)>)
        requires
            all_some(self@),
        ensures
            somes(entries@) == self@,
    {
        match self.try_collect() {
            Ok(entries) => entries,
            Err(_) => unreached(),
        }
    }
}

/// A reading without the end of its prefix.
pub open spec fn reading_without_end(reading: Option<(usize, WordEntry)>) -> Option<WordEntry> {
    match reading {
        Some((_, entry)) => Some(entry),
        None => None,
    }
}

/// The readings without the ends of their prefixes.
pub open spec fn without_ends(s: Seq<Option<(usize, WordEntry)>>) -> Seq<Option<WordEntry>> {
    s.map_values(|reading: Option<(usize, WordEntry)>| reading_without_end(reading))
}

/// The readings of prefixes, without the ends, are those of their values.
proof fn lemma_without_ends(
    prefixes: Seq<(usize, u32)>,
    vals: Seq<u8>,
    is_system: bool,
    archived: bool,
)
    ensures
        without_ends(prefix_readings(prefixes, vals, is_system, archived)) == value_readings(
            prefixes.map_values(|prefix: (usize, u32)| prefix.1),
            vals,
            is_system,
            archived,
        ),
    decreases prefixes.len(),
{
    let values = prefixes.map_values(|prefix: (usize, u32)| prefix.1);
    if prefixes.len() == 0 {
        assert(prefix_readings(prefixes, vals, is_system, archived) == Seq::<
            Option<(usize, WordEntry)>,
        >::empty());
        assert(value_readings(values, vals, is_system, archived) == Seq::<
            Option<WordEntry>,
        >::empty());
    } else {
        let fewer = prefixes.drop_last();
        let last = prefixes.last();
        let added = readings_of_prefix(last, vals, is_system, archived);
        assert(fewer.push(last) == prefixes);
        lemma_without_ends(fewer, vals, is_system, archived);
        lemma_prefix_readings_push(fewer, last, vals, is_system, archived);
        lemma_value_readings_push(
            fewer.map_values(|prefix: (usize, u32)| prefix.1),
            last.1,
            vals,
            is_system,
            archived,
        );
        assert(values == fewer.map_values(|prefix: (usize, u32)| prefix.1).push(last.1));
        assert(without_ends(added) == readings(vals, is_system, archived, last.1));
        assert(without_ends(prefix_readings(fewer, vals, is_system, archived) + added)
            == without_ends(prefix_readings(fewer, vals, is_system, archived)) + without_ends(
            added,
        ));
    }
}

/// The entries of a surface. An entry is read when its turn comes. The view holds what is still to
/// be read, with `None` where an entry is not stored.
#[derive(Debug)]
pub struct SurfaceEntries<'a> {
    entries: PrefixEntries<'a>,
}

impl<'a> View for SurfaceEntries<'a> {
    type V = Seq<Option<WordEntry>>;

    closed spec fn view(&self) -> Seq<Option<WordEntry>> {
        without_ends(self.entries@)
    }
}

impl<'a> SurfaceEntries<'a> {
    /// The entries of the prefixes `(end, value)`, without the ends.
    pub(crate) fn new(
        prefixes: Vec<(usize, u32)>,
        vals: &'a [u8],
        is_system: bool,
        archived: bool,
    ) -> (r: Self)
        ensures
            r@ == value_readings(
                prefixes@.map_values(|prefix: (usize, u32)| prefix.1),
                vals@,
                is_system,
                archived,
            ),
    {
        proof {
            lemma_without_ends(prefixes@, vals@, is_system, archived);
        }
        SurfaceEntries { entries: PrefixEntries::new(prefixes, vals, is_system, archived) }
    }

    /// Reads the next entry: `None` behind the last one, and an error where it is not stored.
    pub fn try_next(&mut self) -> (r: Result<Option<WordEntry>, LookupError>)
        ensures
            match r {
                Ok(Some(entry)) => {
                    &&& old(self)@.len() > 0 && old(self)@[0] == Some(entry)
                    &&& final(self)@ == old(self)@.drop_first()
                },
                Ok(None) => old(self)@.len() == 0 && final(self)@ == old(self)@,
                Err(err) => {
                    &&& err == LookupError::OutOfRange
                    &&& old(self)@.len() > 0 && old(self)@[0] is None
                    &&& final(self)@ == old(self)@
                },
            },
    {
        match self.entries.try_next() {
            Ok(Some((_, entry))) => {
                assert(self@ == old(self)@.drop_first());
                Ok(Some(entry))
            },
            Ok(None) => Ok(None),
            Err(err) => Err(err),
        }
    }

    /// Reads the next entry, which must be stored: `None` behind the last one.
    pub fn next(&mut self) -> (r: Option<WordEntry>)
        requires
            old(self)@.len() > 0 ==> old(self)@[0] is Some,
        ensures
            old(self)@.len() > 0 ==> r == old(self)@[0] && final(self)@ == old(self)@.drop_first(),
            old(self)@.len() == 0 ==> r is None && final(self)@ == old(self)@,
    {
        match self.try_next() {
            Ok(entry) => entry,
            Err(_) => unreached(),
        }
    }

    /// Reads all entries, or fails if one is not stored.
    pub fn try_collect(self) -> (r: Result<Vec<WordEntry>, LookupError>)
        ensures
            r is Ok <==> all_some(self@),
            r matches Ok(entries) ==> somes(entries@) == self@,
            r matches Err(err) ==> err == LookupError::OutOfRange,
    {
        let mut left = self;
        let mut entries: Vec<WordEntry> = Vec::new();
        assert(somes(entries@) + left@ == self@);
        loop
            invariant
                somes(entries@) + left@ == self@,
            decreases left@.len(),
        {
            let ghost read = somes(entries@);
            let ghost before = left@;
            match left.try_next() {
                Ok(Some(entry)) => {
                    entries.push(entry);
                    assert(somes(entries@) + left@ == read + before);
                },
                Ok(None) => {
                    assert(somes(entries@) == self@);
                    return Ok(entries);
                },
                Err(err) => {
                    assert(self@[read.len() as int] is None);
                    return Err(err);
                },
            }
        }
    }

    /// Reads all entries, which must be stored.
    pub fn collect(self) -> (entries: Vec<WordEntry>)
        requires
            all_some(self@),
        ensures
            somes(entries@) == self@,
    {
        match self.try_collect() {
            Ok(entries) => entries,
            Err(_) => unreached(),
        }
    }
}

} // verus!
