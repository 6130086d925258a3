//! The prefix dictionary.

use crate::automaton::{
    automaton_bytes, clone_automaton, decoded, is_searchable, is_sound, leading,
    leading_matches, prefixes_of, registered_patterns, search, sound_automaton, values_of,
};
use crate::data::Data;
use crate::details::{
    compute_penalty_table, first_detail, penalty_table, read_first_detail, table_penalty,
};
use crate::double_array_serde::{deserialize, is_decode_error, is_encoding_of};
use crate::entries::{PrefixEntries, SurfaceEntries};
use crate::entry::WordEntry;
use crate::error::{LinderaResult, LookupError};
use crate::lookup::{
    ending_at, keep_ending_at, law_nothing_stored_nothing_found, law_whole_text_prefix_is_surface,
    lemma_prefix_readings_are_entries, lemma_value_readings_are_entries, prefix_entries,
    prefix_readings, prefixes_readable, read_stored_matches, stored_matches, value_entries,
    value_readings, values_readable, Match,
};
use crate::options::{all_some, lemma_somes_injective, somes};
use crate::text::string_of;
use crate::values::{decode_val, entry_count, entry_offset};
use daachorse::DoubleArrayAhoCorasick;
use vstd::prelude::*;
use vstd::string::*;
use vstd::utf8::encode_utf8;

verus! {

/// A dictionary that finds the words that a text starts with.
pub struct PrefixDictionary {
    /// Maps each surface to values that stand for its entries.
    pub da: DoubleArrayAhoCorasick<u32>,
    /// The entries.
    pub vals_data: Data,
    /// Where the details of each word start.
    pub words_idx_data: Data,
    /// The details of the words.
    pub words_data: Data,
    /// Whether this is the system dictionary, and not a user dictionary.
    pub is_system: bool,
    /// The left-space penalty of each word, computed from its first detail.
    pub space_penalty_table: Vec<i16>,
}

impl PrefixDictionary {
    /// What the dictionary holds: for each surface its values.
    pub open spec fn patterns(&self) -> Map<Seq<u8>, Seq<u32>> {
        registered_patterns(self.da)
    }

    /// Whether the automaton of the dictionary can be searched.
    pub open spec fn searchable(&self) -> bool {
        is_searchable(self.da)
    }

    /// Whether the automaton of the dictionary is the one that is built for its patterns.
    pub open spec fn sound(&self) -> bool {
        sound_automaton(self.da)
    }

    /// The entries of each surface that the text starts with, each with the end of its surface.
    pub open spec fn prefix_search(&self, text: Seq<u8>) -> Seq<(usize, WordEntry)> {
        prefix_entries(
            prefixes_of(self.patterns(), text),
            self.vals_data@,
            self.is_system,
            false,
        )
    }

    /// Whether the entries of each surface that the text starts with are stored.
    pub open spec fn prefix_stored(&self, text: Seq<u8>) -> bool {
        prefixes_readable(
            prefixes_of(self.patterns(), text),
            self.vals_data@,
            self.is_system,
            false,
        )
    }

    /// The entries of a surface.
    pub open spec fn surface_search(&self, surface: Seq<u8>) -> Seq<WordEntry> {
        value_entries(
            values_of(self.patterns(), surface),
            self.vals_data@,
            self.is_system,
            false,
        )
    }

    /// Whether the entries of a surface are stored.
    pub open spec fn surface_stored(&self, surface: Seq<u8>) -> bool {
        values_readable(
            values_of(self.patterns(), surface),
            self.vals_data@,
            self.is_system,
            false,
        )
    }

    /// What reading the entries of each surface that the text starts with one after another gives,
    /// with `None` where an entry is not stored.
    pub open spec fn prefix_readings(&self, text: Seq<u8>) -> Seq<Option<(usize, WordEntry)>> {
        prefix_readings(
            prefixes_of(self.patterns(), text),
            self.vals_data@,
            self.is_system,
            false,
        )
    }

    /// What reading the entries of a surface one after another gives, with `None` where an entry is
    /// not stored.
    pub open spec fn surface_readings(&self, surface: Seq<u8>) -> Seq<Option<WordEntry>> {
        value_readings(
            values_of(self.patterns(), surface),
            self.vals_data@,
            self.is_system,
            false,
        )
    }

    /// A match for each stored entry of each surface that the text starts with.
    pub open spec fn common_search(&self, text: Seq<u8>) -> Seq<Match> {
        stored_matches(prefixes_of(self.patterns(), text), self.vals_data@, self.is_system)
    }

    /// Whether `self` and `other` hold the same.
    pub open spec fn same_as(&self, other: &Self) -> bool {
        &&& self.patterns() == other.patterns()
        &&& self.searchable() == other.searchable()
        &&& automaton_bytes(self.da) == automaton_bytes(other.da)
        &&& self.sound() == other.sound()
        &&& self.vals_data@ == other.vals_data@
        &&& self.words_idx_data@ == other.words_idx_data@
        &&& self.words_data@ == other.words_data@
        &&& self.is_system == other.is_system
        &&& self.space_penalty_table@ == other.space_penalty_table@
    }
}

/// What loading the given bytes results in: the dictionary of them with its penalties computed,
/// or the error for an automaton that does not decode.
pub open spec fn load_outcome(
    r: LinderaResult<PrefixDictionary>,
    da_data: Seq<u8>,
    vals_data: Seq<u8>,
    words_idx_data: Seq<u8>,
    words_data: Seq<u8>,
    is_system: bool,
) -> bool {
    match r {
        Ok(dict) => {
            &&& is_encoding_of(da_data, dict.da)
            &&& dict.vals_data@ == vals_data
            &&& dict.words_idx_data@ == words_idx_data
            &&& dict.words_data@ == words_data
            &&& dict.is_system == is_system
            &&& dict.space_penalty_table@ == penalty_table(words_idx_data, words_data)
        },
        Err(err) => decoded(da_data) is None && is_decode_error(err),
    }
}

impl Clone for PrefixDictionary {
    fn clone(&self) -> (r: Self)
        ensures
            r.same_as(self),
    {
        PrefixDictionary {
            da: clone_automaton(&self.da),
            vals_data: self.vals_data.clone(),
            words_idx_data: self.words_idx_data.clone(),
            words_data: self.words_data.clone(),
            is_system: self.is_system,
            space_penalty_table: self.space_penalty_table.clone(),
        }
    }
}

impl PrefixDictionary {
    /// Splits a value of the automaton into the number of its first entry and their count. The
    /// count has 8 bits in a system dictionary and 5 in a user dictionary.
    pub fn decode_val(&self, val: u32) -> (r: (u32, u32))
        ensures
            r.0 == entry_offset(self.is_system, val),
            r.1 == entry_count(self.is_system, val),
    {
        decode_val(self.is_system, val)
    }

    /// The dictionary of an automaton and its data, as it comes back from storage: penalties are
    /// not stored, and until they are computed every word has the penalty 0.
    pub fn from_parts(
        da: DoubleArrayAhoCorasick<u32>,
        vals_data: Data,
        words_idx_data: Data,
        words_data: Data,
        is_system: bool,
    ) -> (dict: PrefixDictionary)
        ensures
            dict.da == da,
            dict.vals_data == vals_data,
            dict.words_idx_data == words_idx_data,
            dict.words_data == words_data,
            dict.is_system == is_system,
            dict.space_penalty_table@.len() == 0,
            forall|word_id: u32| table_penalty(dict.space_penalty_table@, word_id) == 0,
    {
        PrefixDictionary {
            da,
            vals_data,
            words_idx_data,
            words_data,
            is_system,
            space_penalty_table: Vec::new(),
        }
    }

    /// Loads a dictionary from its bytes: those of the automaton, the entries, the word index and
    /// the word details. Where the automaton does not decode, the others are not looked at.
    pub fn load<A: Into<Data>, B: Into<Data>, C: Into<Data>, D: Into<Data>>(
        da_data: A,
        vals_data: B,
        words_idx_data: C,
        words_data: D,
        is_system: bool,
    ) -> (r: LinderaResult<PrefixDictionary>)
        ensures
            r is Ok ==> exists|a: Data, b: Data, c: Data, d: Data|
                {
                    &&& #[trigger] call_ensures(<A as Into<Data>>::into, (da_data,), a)
                    &&& #[trigger] call_ensures(<B as Into<Data>>::into, (vals_data,), b)
                    &&& #[trigger] call_ensures(<C as Into<Data>>::into, (words_idx_data,), c)
                    &&& #[trigger] call_ensures(<D as Into<Data>>::into, (words_data,), d)
                    &&& load_outcome(r, a@, b@, c@, d@, is_system)
                },
            r matches Err(err) ==> exists|a: Data|
                {
                    &&& #[trigger] call_ensures(<A as Into<Data>>::into, (da_data,), a)
                    &&& decoded(a@) is None && is_decode_error(err)
                },
    {
        let a: Data = da_data.into();
        match deserialize(a.as_slice()) {
            Ok(da) => {
                let b: Data = vals_data.into();
                let c: Data = words_idx_data.into();
                let d: Data = words_data.into();
                let ghost (b0, c0, d0) = (b, c, d);
                let mut dict = PrefixDictionary::from_parts(da, b, c, d, is_system);
                dict.build_space_penalty_table();
                let r = Ok(dict);
                assert(load_outcome(r, a@, b0@, c0@, d0@, is_system));
                r
            },
            Err(err) => {
                assert(decoded(a@) is None && is_decode_error(err));
                Err(err)
            },
        }
    }

    /// Loads a dictionary from its blocks of bytes.
    pub fn from_data(
        da_data: Data,
        vals_data: Data,
        words_idx_data: Data,
        words_data: Data,
        is_system: bool,
    ) -> (r: LinderaResult<PrefixDictionary>)
        ensures
            load_outcome(
                r,
                da_data@,
                vals_data@,
                words_idx_data@,
                words_data@,
                is_system,
            ),
    {
        match deserialize(da_data.as_slice()) {
            Ok(da) => {
                let mut dict = PrefixDictionary::from_parts(
                    da,
                    vals_data,
                    words_idx_data,
                    words_data,
                    is_system,
                );
                dict.build_space_penalty_table();
                Ok(dict)
            },
            Err(err) => Err(err),
        }
    }

    /// Computes the space penalty of each word from its first detail.
    pub fn build_space_penalty_table(&mut self)
        ensures
            final(self).space_penalty_table@ == penalty_table(
                old(self).words_idx_data@,
                old(self).words_data@,
            ),
            final(self).da == old(self).da,
            final(self).vals_data == old(self).vals_data,
            final(self).words_idx_data == old(self).words_idx_data,
            final(self).words_data == old(self).words_data,
            final(self).is_system == old(self).is_system,
    {
        let table = compute_penalty_table(
            self.words_idx_data.as_slice(),
            self.words_data.as_slice(),
        );
        self.space_penalty_table = table;
    }

    /// Reads a word's first detail, its part-of-speech tag. `None` if there is no such word or its
    /// data is malformed.
    pub fn get_first_detail(&self, word_id: u32) -> (r: Option<&str>)
        ensures
            r is Some <==> first_detail(self.words_idx_data@, self.words_data@, word_id) is Some,
            r matches Some(s) ==> first_detail(self.words_idx_data@, self.words_data@, word_id)
                == Some(s@),
    {
        read_first_detail(self.words_idx_data.as_slice(), self.words_data.as_slice(), word_id)
    }

    /// Looks up the computed space penalty of a word, which is 0 for an unknown word.
    pub fn get_space_penalty(&self, word_id: u32) -> (penalty: i32)
        ensures
            penalty == table_penalty(self.space_penalty_table@, word_id),
    {
        let idx: usize = word_id as usize;
        if idx < self.space_penalty_table.len() {
            self.space_penalty_table[idx] as i32
        } else {
            0
        }
    }

    /// Checks that the automaton is what is built for its patterns, so that it can be searched.
    /// A dictionary that comes from untrusted bytes need not pass. This takes as long as building
    /// the automaton.
    pub fn has_sound_automaton(&self) -> (r: bool)
        ensures
            r == self.sound(),
            r ==> self.searchable(),
    {
        is_sound(&self.da)
    }

    /// The entries for the matches of a search that start at 0, each with the match's end.
    pub fn prefix_of_matches(&self, matches: &Vec<(usize, usize, u32)>) -> (r: PrefixEntries<'_>)
        ensures
            r@ == prefix_readings(leading(matches@), self.vals_data@, self.is_system, false),
    {
        PrefixEntries::new(
            leading_matches(matches),
            self.vals_data.as_slice(),
            self.is_system,
            false,
        )
    }

    /// Finds the entries of each surface that `s` starts with, each with the surface's end in `s`,
    /// the shortest surface first. An entry is read when its turn comes.
    pub fn prefix(&self, s: &str) -> (r: PrefixEntries<'_>)
        requires
            self.searchable(),
        ensures
            r@ == self.prefix_readings(s.spec_bytes()),
            self.prefix_stored(s.spec_bytes()) ==> r@ == somes(self.prefix_search(s.spec_bytes())),
            all_some(r@) <==> self.prefix_stored(s.spec_bytes()),
    {
        proof {
            lemma_prefix_readings_are_entries(
                prefixes_of(self.patterns(), s.spec_bytes()),
                self.vals_data@,
                self.is_system,
                false,
            );
        }
        let matches = search(&self.da, s);
        self.prefix_of_matches(&matches)
    }

    /// Like `prefix`, for any dictionary: first checks that the automaton is sound, which takes as
    /// long as building it, and then reads all entries.
    pub fn try_prefix(&self, s: &str) -> (r: Result<Vec<(usize, WordEntry)>, LookupError>)
        ensures
            r matches Ok(entries) ==> {
                &&& self.sound() && self.searchable()
                &&& self.prefix_stored(s.spec_bytes())
                &&& entries@ == self.prefix_search(s.spec_bytes())
            },
            r matches Err(err) ==> match err {
                LookupError::Undecodable => false,
                LookupError::Unsound => !self.sound(),
                LookupError::OutOfRange => self.sound() && self.searchable()
                    && !self.prefix_stored(s.spec_bytes()),
            },
    {
        if !self.has_sound_automaton() {
            return Err(LookupError::Unsound);
        }
        match self.prefix(s).try_collect() {
            Ok(entries) => {
                proof {
                    lemma_somes_injective(entries@, self.prefix_search(s.spec_bytes()));
                }
                Ok(entries)
            },
            Err(err) => Err(err),
        }
    }

    /// The entries for the matches of a search that start at 0 and end at `len`.
    pub fn surface_of_matches(&self, matches: &Vec<(usize, usize, u32)>, len: usize) -> (r:
        SurfaceEntries<'_>)
        ensures
            r@ == value_readings(
                ending_at(leading(matches@), len),
                self.vals_data@,
                self.is_system,
                false,
            ),
    {
        SurfaceEntries::new(
            keep_ending_at(&leading_matches(matches), len),
            self.vals_data.as_slice(),
            self.is_system,
            false,
        )
    }

    /// Finds the entries of a surface.
    pub fn find_surface(&self, surface: &str) -> (r: Vec<WordEntry>)
        requires
            self.searchable(),
            self.surface_stored(surface.spec_bytes()),
        ensures
            r@ == self.surface_search(surface.spec_bytes()),
    {
        let r = self.find_surface_iter(surface).collect();
        proof {
            lemma_somes_injective(r@, self.surface_search(surface.spec_bytes()));
        }
        r
    }

    /// Finds the entries of a surface. An entry is read when its turn comes.
    pub fn find_surface_iter(&self, surface: &str) -> (r: SurfaceEntries<'_>)
        requires
            self.searchable(),
        ensures
            r@ == self.surface_readings(surface.spec_bytes()),
            self.surface_stored(surface.spec_bytes()) ==> r@ == somes(
                self.surface_search(surface.spec_bytes()),
            ),
            all_some(r@) <==> self.surface_stored(surface.spec_bytes()),
    {
        let matches = search(&self.da, surface);
        proof {
            law_whole_text_prefix_is_surface(self.patterns(), surface.spec_bytes());
            lemma_value_readings_are_entries(
                values_of(self.patterns(), surface.spec_bytes()),
                self.vals_data@,
                self.is_system,
                false,
            );
        }
        self.surface_of_matches(&matches, surface.len())
    }

    /// Like `find_surface`, for any dictionary: first checks that the automaton is sound, which
    /// takes as long as building it, and then reads all entries.
    pub fn try_find_surface(&self, surface: &str) -> (r: Result<Vec<WordEntry>, LookupError>)
        ensures
            r matches Ok(entries) ==> {
                &&& self.sound() && self.searchable()
                &&& self.surface_stored(surface.spec_bytes())
                &&& entries@ == self.surface_search(surface.spec_bytes())
            },
            r matches Err(err) ==> match err {
                LookupError::Undecodable => false,
                LookupError::Unsound => !self.sound(),
                LookupError::OutOfRange => self.sound() && self.searchable()
                    && !self.surface_stored(surface.spec_bytes()),
            },
    {
        if !self.has_sound_automaton() {
            return Err(LookupError::Unsound);
        }
        match self.find_surface_iter(surface).try_collect() {
            Ok(_) => Ok(self.find_surface(surface)),
            Err(err) => Err(err),
        }
    }

    /// A match for each entry that is stored of the matches of a search that start at 0.
    pub fn common_of_matches(&self, matches: &Vec<(usize, usize, u32)>) -> (r: Vec<Match>)
        ensures
            r@ == stored_matches(leading(matches@), self.vals_data@, self.is_system),
    {
        read_stored_matches(
            &leading_matches(matches),
            self.vals_data.as_slice(),
            self.is_system,
        )
    }

    /// Finds the words of each surface that the characters start with, the shortest surface first.
    /// Entries that are not stored are left out.
    pub fn common_prefix_iterator(&self, suffix: &[char]) -> (r: Vec<Match>)
        requires
            self.vals_data@.len() > 0 ==> self.searchable(),
        ensures
            r@ == self.common_search(encode_utf8(suffix@)),
    {
        if self.vals_data.is_empty() {
            proof {
                law_nothing_stored_nothing_found(
                    prefixes_of(self.patterns(), encode_utf8(suffix@)),
                    self.vals_data@,
                    self.is_system,
                );
            }
            return Vec::new();
        }
        let text = string_of(suffix);
        let matches = search(&self.da, text.as_str());
        self.common_of_matches(&matches)
    }

    /// Like `common_prefix_iterator`, for any dictionary: first checks that the automaton is
    /// sound, which takes as long as building it.
    pub fn try_common_prefix_iterator(&self, suffix: &[char]) -> (r: Result<
        Vec<Match>,
        LookupError,
    >)
        ensures
            r matches Ok(matches) ==> matches@ == self.common_search(encode_utf8(suffix@)),
            r is Ok <==> self.vals_data@.len() == 0 || self.sound(),
            r matches Err(err) ==> err == LookupError::Unsound,
    {
        if self.vals_data.is_empty() || self.has_sound_automaton() {
            Ok(self.common_prefix_iterator(suffix))
        } else {
            Err(LookupError::Unsound)
        }
    }
}

} // verus!
