//! Lookups in a dictionary in its archived form.

use crate::automaton::{
    decoded, is_searchable, is_sound, leading, leading_matches, prefixes_of,
    registered_patterns, search, values_of,
};
use crate::double_array_serde::{is_decode_error, DoubleArrayArchiver};
use crate::entries::{PrefixEntries, SurfaceEntries};
use crate::entry::WordEntry;
use crate::error::{LinderaResult, LookupError};
use crate::lookup::{
    ending_at, keep_ending_at, law_whole_text_prefix_is_surface, lemma_prefix_readings_are_entries,
    lemma_value_readings_are_entries, prefix_entries, prefix_readings, prefixes_readable,
    value_entries, value_readings, values_readable,
};
use crate::options::{all_some, lemma_somes_injective, somes};
use crate::values::{decode_val, entry_count, entry_offset};
use daachorse::DoubleArrayAhoCorasick;
use vstd::pervasive::unreached;
use vstd::prelude::*;
use vstd::string::*;

verus! {

/// What lookups read of an archived dictionary. The automaton stays in its serialized form, and
/// each lookup decodes it anew.
pub struct ArchivedPrefixDictionary<'a> {
    /// The bytes of the automaton.
    pub da: &'a [u8],
    /// The entries.
    pub vals_data: &'a [u8],
    /// Whether this is the system dictionary, and not a user dictionary.
    pub is_system: bool,
}

impl<'a> ArchivedPrefixDictionary<'a> {
    /// Whether the automaton can be decoded.
    pub open spec fn decodes(&self) -> bool {
        decoded(self.da@) is Some
    }

    /// Whether the automaton, once decoded, can be searched.
    pub open spec fn searchable(&self) -> bool {
        match decoded(self.da@) {
            Some((searchable, _, _, _)) => searchable,
            None => false,
        }
    }

    /// Whether the automaton, once decoded, is the one that is built for its patterns.
    pub open spec fn sound(&self) -> bool {
        match decoded(self.da@) {
            Some((_, _, sound, _)) => sound,
            None => false,
        }
    }

    /// What the dictionary holds: for each surface its values.
    pub open spec fn patterns(&self) -> Map<Seq<u8>, Seq<u32>> {
        match decoded(self.da@) {
            Some((_, patterns, _, _)) => patterns,
            None => Map::empty(),
        }
    }

    /// The entries of each surface that the text starts with, each with the end of its surface.
    pub open spec fn prefix_search(&self, text: Seq<u8>) -> Seq<(usize, WordEntry)> {
        prefix_entries(prefixes_of(self.patterns(), text), self.vals_data@, self.is_system, true)
    }

    /// Whether the entries of each surface that the text starts with are stored, or start behind
    /// the stored ones.
    pub open spec fn prefix_stored(&self, text: Seq<u8>) -> bool {
        prefixes_readable(
            prefixes_of(self.patterns(), text),
            self.vals_data@,
            self.is_system,
            true,
        )
    }

    /// The entries of a surface.
    pub open spec fn surface_search(&self, surface: Seq<u8>) -> Seq<WordEntry> {
        value_entries(values_of(self.patterns(), surface), self.vals_data@, self.is_system, true)
    }

    /// Whether the entries of a surface are stored, or start behind the stored ones.
    pub open spec fn surface_stored(&self, surface: Seq<u8>) -> bool {
        values_readable(values_of(self.patterns(), surface), self.vals_data@, self.is_system, true)
    }

    /// What reading the entries of each surface that the text starts with one after another gives,
    /// with `None` where the entries of a surface are not stored whole.
    pub open spec fn prefix_readings(&self, text: Seq<u8>) -> Seq<Option<(usize, WordEntry)>> {
        prefix_readings(prefixes_of(self.patterns(), text), self.vals_data@, self.is_system, true)
    }

    /// Splits a value of the automaton into the number of its first entry and their count. The
    /// count has 8 bits in a system dictionary and 5 in a user dictionary.
    pub fn decode_val(&self, val: u32) -> (r: (u32, u32))
        ensures
            r.0 == entry_offset(self.is_system, val),
            r.1 == entry_count(self.is_system, val),
    {
        decode_val(self.is_system, val)
    }

    /// The entries for the matches of a search that start at 0, each with the match's end. A match
    /// whose entries start behind the stored ones has none.
    pub fn prefix_of_matches(&self, matches: &Vec<(usize, usize, u32)>) -> (r: PrefixEntries<'a>)
        ensures
            r@ == prefix_readings(leading(matches@), self.vals_data@, self.is_system, true),
    {
        PrefixEntries::new(leading_matches(matches), self.vals_data, self.is_system, true)
    }

    /// Finds the entries of each surface that `s` starts with, each with the surface's end in `s`,
    /// the shortest surface first; or fails, if the automaton cannot be decoded. The entries of a
    /// surface are read when their turn comes.
    pub fn prefix(&self, s: &str) -> (r: LinderaResult<PrefixEntries<'a>>)
        requires
            self.decodes() ==> self.searchable(),
        ensures
            r is Ok <==> self.decodes(),
            r matches Ok(entries) ==> {
                &&& entries@ == self.prefix_readings(s.spec_bytes())
                &&& self.prefix_stored(s.spec_bytes()) ==> entries@ == somes(
                    self.prefix_search(s.spec_bytes()),
                )
                &&& all_some(entries@) <==> self.prefix_stored(s.spec_bytes())
            },
            r matches Err(err) ==> is_decode_error(err),
    {
        proof {
            lemma_prefix_readings_are_entries(
                prefixes_of(self.patterns(), s.spec_bytes()),
                self.vals_data@,
                self.is_system,
                true,
            );
        }
        match DoubleArrayArchiver::deserialize_with(self.da) {
            Ok(da) => Ok(self.prefix_of_matches(&search(&da, s))),
            Err(err) => Err(err),
        }
    }

    /// Decodes the automaton and checks that it is sound, which takes as long as building it.
    pub fn check_automaton(&self) -> (r: Result<(), LookupError>)
        ensures
            r is Ok <==> self.sound(),
            r is Ok ==> self.decodes() && self.searchable(),
            r matches Err(err) ==> err == if self.decodes() {
                LookupError::Unsound
            } else {
                LookupError::Undecodable
            },
    {
        match DoubleArrayArchiver::deserialize_with(self.da) {
            Ok(da) => if is_sound(&da) {
                Ok(())
            } else {
                Err(LookupError::Unsound)
            },
            Err(_) => Err(LookupError::Undecodable),
        }
    }

    /// Like `prefix`, for any archive: first checks that the automaton is sound, which takes as
    /// long as building it, and then reads all entries.
    pub fn try_prefix(&self, s: &str) -> (r: Result<Vec<(usize, WordEntry)>, LookupError>)
        ensures
            r matches Ok(entries) ==> {
                &&& self.decodes() && self.sound() && self.searchable()
                &&& self.prefix_stored(s.spec_bytes())
                &&& entries@ == self.prefix_search(s.spec_bytes())
            },
            r matches Err(err) ==> match err {
                LookupError::Undecodable => !self.decodes(),
                LookupError::Unsound => self.decodes() && !self.sound(),
                LookupError::OutOfRange => self.decodes() && self.sound() && self.searchable()
                    && !self.prefix_stored(s.spec_bytes()),
            },
    {
        if let Err(err) = self.check_automaton() {
            return Err(err);
        }
        match self.prefix(s) {
            Ok(entries) => {
                match entries.try_collect() {
                    Ok(entries) => {
                        proof {
                            lemma_somes_injective(entries@, self.prefix_search(s.spec_bytes()));
                        }
                        Ok(entries)
                    },
                    Err(err) => Err(err),
                }
            },
            Err(_) => unreached(),
        }
    }

    /// The entries for the matches of a search that start at 0 and end at `len`. A match whose
    /// entries start behind the stored ones has none.
    pub fn surface_of_matches(&self, matches: &Vec<(usize, usize, u32)>, len: usize) -> (r:
        SurfaceEntries<'a>)
        ensures
            r@ == value_readings(
                ending_at(leading(matches@), len),
                self.vals_data@,
                self.is_system,
                true,
            ),
    {
        SurfaceEntries::new(
            keep_ending_at(&leading_matches(matches), len),
            self.vals_data,
            self.is_system,
            true,
        )
    }

    /// The entries of a surface in the archive with the automaton `da`, or an error if they are not
    /// stored.
    fn collect_surface(&self, da: &DoubleArrayAhoCorasick<u32>, surface: &str) -> (r: Result<
        Vec<WordEntry>,
        LookupError,
    >)
        requires
            is_searchable(*da),
            registered_patterns(*da) == self.patterns(),
        ensures
            r is Ok <==> self.surface_stored(surface.spec_bytes()),
            r matches Ok(entries) ==> entries@ == self.surface_search(surface.spec_bytes()),
            r matches Err(err) ==> err == LookupError::OutOfRange,
    {
        let matches = search(da, surface);
        proof {
            law_whole_text_prefix_is_surface(self.patterns(), surface.spec_bytes());
            lemma_value_readings_are_entries(
                values_of(self.patterns(), surface.spec_bytes()),
                self.vals_data@,
                self.is_system,
                true,
            );
        }
        match self.surface_of_matches(&matches, surface.len()).try_collect() {
            Ok(entries) => {
                proof {
                    lemma_somes_injective(entries@, self.surface_search(surface.spec_bytes()));
                }
                Ok(entries)
            },
            Err(err) => Err(err),
        }
    }

    /// Finds the entries of a surface; or fails, if the automaton cannot be decoded.
    pub fn find_surface(&self, surface: &str) -> (r: LinderaResult<Vec<WordEntry>>)
        requires
            self.decodes() ==> self.searchable() && self.surface_stored(surface.spec_bytes()),
        ensures
            r is Ok <==> self.decodes(),
            r matches Ok(entries) ==> entries@ == self.surface_search(surface.spec_bytes()),
            r matches Err(err) ==> is_decode_error(err),
    {
        match DoubleArrayArchiver::deserialize_with(self.da) {
            Ok(da) => match self.collect_surface(&da, surface) {
                Ok(entries) => Ok(entries),
                Err(_) => unreached(),
            },
            Err(err) => Err(err),
        }
    }

    /// Like `find_surface`, for any archive: first checks that the automaton is sound, which takes
    /// as long as building it, and then reads all entries.
    pub fn try_find_surface(&self, surface: &str) -> (r: Result<Vec<WordEntry>, LookupError>)
        ensures
            r matches Ok(entries) ==> {
                &&& self.decodes() && self.sound() && self.searchable()
                &&& self.surface_stored(surface.spec_bytes())
                &&& entries@ == self.surface_search(surface.spec_bytes())
            },
            r matches Err(err) ==> match err {
                LookupError::Undecodable => !self.decodes(),
                LookupError::Unsound => self.decodes() && !self.sound(),
                LookupError::OutOfRange => self.decodes() && self.sound() && self.searchable()
                    && !self.surface_stored(surface.spec_bytes()),
            },
    {
        if let Err(err) = self.check_automaton() {
            return Err(err);
        }
        match DoubleArrayArchiver::deserialize_with(self.da) {
            Ok(da) => match self.collect_surface(&da, surface) {
                Ok(_) => match self.find_surface(surface) {
                    Ok(entries) => Ok(entries),
                    Err(_) => unreached(),
                },
                Err(err) => Err(err),
            },
            Err(_) => unreached(),
        }
    }
}

} // verus!
