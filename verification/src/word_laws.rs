//! What holds of the details of words, of the penalties of tags, and of the table of penalties.

use crate::details::{first_detail, first_detail_bytes, penalty_table, table_penalty};
use crate::dictionary::{load_outcome, PrefixDictionary};
use crate::error::LinderaResult;
use crate::penalty::korean_space_penalty;
use crate::until::{lemma_until_is_prefix, until};
use vstd::prelude::*;
use vstd::string::*;
use vstd::utf8::{
    char_is_scalar, char_u32_cast, decode_utf8_encode_utf8, encode_scalar, encode_utf8,
    encode_utf8_decode_utf8, encode_utf8_valid_utf8, last_continuation_byte, leading_byte_width_1,
    leading_byte_width_2, leading_byte_width_3, leading_byte_width_4,
    second_last_continuation_byte, third_last_continuation_byte,
};

verus! {

proof fn lemma_encoding_bytes(c: u32)
    by (bit_vector)
    ensures
        0 < c <= 0x7F ==> leading_byte_width_1(c) != 0,
        leading_byte_width_2(c) != 0,
        leading_byte_width_3(c) != 0,
        leading_byte_width_4(c) != 0,
        last_continuation_byte(c) != 0,
        second_last_continuation_byte(c) != 0,
        third_last_continuation_byte(c) != 0,
{
}

proof fn lemma_zero_byte(c: u32)
    by (bit_vector)
    requires
        c == 0,
    ensures
        leading_byte_width_1(c) == 0,
{
}

proof fn lemma_zero_character(c: char)
    ensures
        c as u32 == 0 <==> c == '\0',
{
    char_u32_cast(c, c as u32);
    assert('\0' as u32 == 0);
    assert(0u32 as char == '\0');
}

/// The UTF-8 encoding has a zero byte exactly for a zero character.
proof fn lemma_encoding_without_zero(d: Seq<char>)
    ensures
        encode_utf8(d).contains(0u8) <==> d.contains('\0'),
    decreases d.len(),
{
    if d.len() > 0 {
        let c = d[0] as u32;
        let here = encode_scalar(c);
        let rest = encode_utf8(d.drop_first());
        char_is_scalar(d[0]);
        assert(encode_utf8(d) == here + rest);
        lemma_zero_character(d[0]);
        lemma_encoding_without_zero(d.drop_first());
        lemma_encoding_bytes(c);
        assert(here.contains(0u8) <==> c == 0) by {
            if c == 0 {
                lemma_zero_byte(c);
                assert(here[0] == 0u8);
            }
        }
        assert((here + rest).contains(0u8) <==> here.contains(0u8) || rest.contains(0u8)) by {
            if here.contains(0u8) {
                let i = here.index_of(0u8);
                assert((here + rest)[i] == 0u8);
            }
            if rest.contains(0u8) {
                let i = rest.index_of(0u8);
                assert((here + rest)[here.len() + i] == 0u8);
            }
            if (here + rest).contains(0u8) {
                let i = (here + rest).index_of(0u8);
                if i < here.len() {
                    assert(here[i] == 0u8);
                } else {
                    assert(rest[i - here.len()] == 0u8);
                }
            }
        }
        assert(d.contains('\0') <==> d[0] == '\0' || d.drop_first().contains('\0')) by {
            if d.contains('\0') {
                let i = d.index_of('\0');
                if i > 0 {
                    assert(d.drop_first()[i - 1] == '\0');
                    assert(d.drop_first().contains('\0'));
                }
            }
            if d.drop_first().contains('\0') {
                let i = d.drop_first().index_of('\0');
                assert(d[i + 1] == '\0');
            }
        }
    }
}

/// Writing details and reading the first gives it back: where the index of a word points at a
/// length and at that many bytes, and these are the UTF-8 encoding of a detail, alone or with a
/// zero byte and anything else behind it, then that is the word's first detail, whatever characters
/// but zero it has.
pub proof fn law_written_detail_is_read_back(
    words_idx: Seq<u8>,
    words: Seq<u8>,
    word_id: u32,
    start: int,
    len: int,
    detail: Seq<char>,
    rest: Seq<u8>,
)
    requires
        !detail.contains('\0'),
        4 * word_id + 4 <= words_idx.len(),
        start == words_idx[4 * word_id] + 256 * words_idx[4 * word_id + 1] + 65536 * words_idx[4
            * word_id + 2] + 16777216 * words_idx[4 * word_id + 3],
        start + 4 + len <= words.len(),
        len == words[start] + 256 * words[start + 1] + 65536 * words[start + 2] + 16777216
            * words[start + 3],
        words.subrange(start + 4, start + 4 + len) == encode_utf8(detail) || words.subrange(
            start + 4,
            start + 4 + len,
        ) == encode_utf8(detail) + seq![0u8] + rest,
    ensures
        first_detail(words_idx, words, word_id) == Some(detail),
{
    let at = 4 * word_id;
    let bytes = encode_utf8(detail);
    let block = words.subrange(start + 4, start + 4 + len);
    let idx_bytes = words_idx.subrange(at, at + 4);
    let len_bytes = words.subrange(start, start + 4);
    assert(idx_bytes[0] == words_idx[at] && idx_bytes[1] == words_idx[at + 1] && idx_bytes[2]
        == words_idx[at + 2] && idx_bytes[3] == words_idx[at + 3]);
    assert(len_bytes[0] == words[start] && len_bytes[1] == words[start + 1] && len_bytes[2]
        == words[start + 2] && len_bytes[3] == words[start + 3]);
    lemma_encoding_without_zero(detail);
    encode_utf8_valid_utf8(detail);
    encode_utf8_decode_utf8(detail);
    assert(block.take(bytes.len() as int) == bytes);
    assert forall|i: int| 0 <= i < bytes.len() implies block[i] != 0u8 by {
        assert(block[i] == bytes[i]);
        assert(bytes.contains(bytes[i]));
    }
    lemma_until_is_prefix(block, 0u8, bytes.len() as int);
    assert(first_detail_bytes(words_idx, words, word_id) == Some(bytes));
}

/// A first detail that is read stands where the word's index points: its UTF-8 encoding is the
/// block of bytes there up to its first zero byte, or to its end if it has none.
pub proof fn law_first_detail_is_written_where_the_index_points(
    words_idx: Seq<u8>,
    words: Seq<u8>,
    word_id: u32,
    detail: Seq<char>,
    start: int,
    len: int,
)
    requires
        first_detail(words_idx, words, word_id) == Some(detail),
        start == words_idx[4 * word_id] + 256 * words_idx[4 * word_id + 1] + 65536 * words_idx[4
            * word_id + 2] + 16777216 * words_idx[4 * word_id + 3],
        len == words[start] + 256 * words[start + 1] + 65536 * words[start + 2] + 16777216
            * words[start + 3],
    ensures
        4 * word_id + 4 <= words_idx.len(),
        start + 4 + len <= words.len(),
        encode_utf8(detail).len() <= len,
        words.subrange(start + 4, start + 4 + encode_utf8(detail).len()) == encode_utf8(detail),
        !detail.contains('\0'),
        encode_utf8(detail).len() < len ==> words[start + 4 + encode_utf8(detail).len()] == 0,
{
    let at = 4 * word_id;
    let idx_bytes = words_idx.subrange(at, at + 4);
    let len_bytes = words.subrange(start, start + 4);
    assert(idx_bytes[0] == words_idx[at] && idx_bytes[1] == words_idx[at + 1] && idx_bytes[2]
        == words_idx[at + 2] && idx_bytes[3] == words_idx[at + 3]);
    assert(len_bytes[0] == words[start] && len_bytes[1] == words[start + 1] && len_bytes[2]
        == words[start + 2] && len_bytes[3] == words[start + 3]);
    let block = words.subrange(start + 4, start + 4 + len);
    let bytes = until(block, 0u8);
    assert(first_detail_bytes(words_idx, words, word_id) == Some(bytes));
    decode_utf8_encode_utf8(bytes);
    assert(bytes == encode_utf8(detail));
    block.index_of_first_ensures(0u8);
    let n = bytes.len() as int;
    assert(bytes == block.take(n));
    assert(words.subrange(start + 4, start + 4 + n) == bytes);
    lemma_encoding_without_zero(detail);
    if bytes.contains(0u8) {
        let i = bytes.index_of(0u8);
        assert(block[i] == 0u8);
        assert(block.contains(block[i]));
        assert(false);
    }
}

/// The tags with a penalty: a tag of one segment has 6000 exactly if it is one of the particles,
/// and 3000 exactly if it is one of the endings, the copula or one of the suffixes.
pub proof fn law_tags_with_a_penalty(tag: Seq<char>)
    requires
        !tag.contains('+'),
    ensures
        korean_space_penalty(tag) == 6000 <==> {
            ||| tag == seq!['J', 'C']
            ||| tag == seq!['J', 'K', 'B']
            ||| tag == seq!['J', 'K', 'C']
            ||| tag == seq!['J', 'K', 'G']
            ||| tag == seq!['J', 'K', 'O']
            ||| tag == seq!['J', 'K', 'Q']
            ||| tag == seq!['J', 'K', 'S']
            ||| tag == seq!['J', 'K', 'V']
            ||| tag == seq!['J', 'X']
        },
        korean_space_penalty(tag) == 3000 <==> {
            ||| tag == seq!['E', 'C']
            ||| tag == seq!['E', 'F']
            ||| tag == seq!['E', 'P']
            ||| tag == seq!['E', 'T', 'M']
            ||| tag == seq!['E', 'T', 'N']
            ||| tag == seq!['V', 'C', 'P']
            ||| tag == seq!['X', 'S', 'A']
            ||| tag == seq!['X', 'S', 'N']
            ||| tag == seq!['X', 'S', 'V']
        },
        korean_space_penalty(tag) == 6000 || korean_space_penalty(tag) == 3000
            || korean_space_penalty(tag) == 0,
{
    assert forall|i: int| 0 <= i < tag.len() implies tag[i] != '+' by {
        assert(tag.contains(tag[i]));
    }
    lemma_until_is_prefix(tag, '+', tag.len() as int);
    assert(tag.take(tag.len() as int) == tag);
    lemma_tag_characters();
}

/// The characters of the tags.
proof fn lemma_tag_characters()
    ensures
        "JC"@ == seq!['J', 'C'],
        "JKB"@ == seq!['J', 'K', 'B'],
        "JKC"@ == seq!['J', 'K', 'C'],
        "JKG"@ == seq!['J', 'K', 'G'],
        "JKO"@ == seq!['J', 'K', 'O'],
        "JKQ"@ == seq!['J', 'K', 'Q'],
        "JKS"@ == seq!['J', 'K', 'S'],
        "JKV"@ == seq!['J', 'K', 'V'],
        "JX"@ == seq!['J', 'X'],
        "EC"@ == seq!['E', 'C'],
        "EF"@ == seq!['E', 'F'],
        "EP"@ == seq!['E', 'P'],
        "ETM"@ == seq!['E', 'T', 'M'],
        "ETN"@ == seq!['E', 'T', 'N'],
        "VCP"@ == seq!['V', 'C', 'P'],
        "XSA"@ == seq!['X', 'S', 'A'],
        "XSN"@ == seq!['X', 'S', 'N'],
        "XSV"@ == seq!['X', 'S', 'V'],
{
    reveal_strlit("JC");
    reveal_strlit("JKB");
    reveal_strlit("JKC");
    reveal_strlit("JKG");
    reveal_strlit("JKO");
    reveal_strlit("JKQ");
    reveal_strlit("JKS");
    reveal_strlit("JKV");
    reveal_strlit("JX");
    reveal_strlit("EC");
    reveal_strlit("EF");
    reveal_strlit("EP");
    reveal_strlit("ETM");
    reveal_strlit("ETN");
    reveal_strlit("VCP");
    reveal_strlit("XSA");
    reveal_strlit("XSN");
    reveal_strlit("XSV");
}

/// The penalty of a compound tag is that of its first segment, whatever the other segments are.
pub proof fn law_compound_tag_counts_as_its_first_segment(first: Seq<char>, others: Seq<char>)
    requires
        !first.contains('+'),
    ensures
        korean_space_penalty(first + seq!['+'] + others) == korean_space_penalty(first),
{
    let whole = first + seq!['+'] + others;
    assert forall|i: int| 0 <= i < first.len() implies first[i] != '+' && whole[i] != '+' by {
        assert(first.contains(first[i]));
    }
    lemma_until_is_prefix(whole, '+', first.len() as int);
    lemma_until_is_prefix(first, '+', first.len() as int);
    assert(whole.take(first.len() as int) == first);
    assert(first.take(first.len() as int) == first);
}

/// A tag with a penalty starts with the letters of its class: a J and only a J gives 6000, and 3000
/// comes with an E, with XS or with VCP as the first segment. Any other tag, such as that of a
/// noun, a verb or an adverb, has none.
pub proof fn law_penalty_shows_in_the_first_letters(pos: Seq<char>)
    ensures
        korean_space_penalty(pos) != 0 ==> pos.len() >= 2,
        korean_space_penalty(pos) == 6000 <==> korean_space_penalty(pos) != 0 && pos[0] == 'J',
        korean_space_penalty(pos) == 3000 ==> {
            ||| pos[0] == 'E'
            ||| pos[0] == 'X' && pos[1] == 'S'
            ||| pos.len() >= 3 && pos.take(3) == seq!['V', 'C', 'P'] && (pos.len() == 3 || pos[3]
                == '+')
        },
{
    let first = until(pos, '+');
    pos.index_of_first_ensures('+');
    assert(first == pos.take(first.len() as int));
    assert(!first.contains('+')) by {
        if first.contains('+') {
            let i = first.index_of('+');
            assert(pos[i] == '+');
            assert(pos.contains(pos[i]));
        }
    }
    assert forall|i: int| 0 <= i < first.len() implies first[i] != '+' by {
        assert(first.contains(first[i]));
    }
    lemma_until_is_prefix(first, '+', first.len() as int);
    assert(first.take(first.len() as int) == first);
    assert(korean_space_penalty(first) == korean_space_penalty(pos));
    assert forall|i: int| 0 <= i < first.len() implies first[i] == pos[i] by {}
    law_tags_with_a_penalty(first);
    if first == seq!['V', 'C', 'P'] {
        assert(pos.take(3) == first);
    }
}

/// The table has an entry for each word in the index: the penalty of the word's first detail, and 0
/// where it has none.
pub proof fn law_table_holds_the_penalty_of_each_first_detail(
    words_idx: Seq<u8>,
    words: Seq<u8>,
    word_id: u32,
)
    ensures
        penalty_table(words_idx, words).len() == words_idx.len() / 4,
        word_id < words_idx.len() / 4 ==> match first_detail(words_idx, words, word_id) {
            Some(pos) => penalty_table(words_idx, words)[word_id as int] == korean_space_penalty(
                pos,
            ),
            None => penalty_table(words_idx, words)[word_id as int] == 0,
        },
        word_id >= words_idx.len() / 4 ==> first_detail(words_idx, words, word_id) is None,
{
}

/// Looking up a word gives what the table holds for it, and 0 behind the end of the table.
pub proof fn law_lookup_gives_what_the_table_holds(
    before: Seq<i16>,
    penalty: i16,
    after: Seq<i16>,
    word_id: u32,
)
    requires
        before.len() <= word_id,
    ensures
        before.len() == word_id ==> table_penalty(before + seq![penalty] + after, word_id)
            == penalty,
        table_penalty(before, word_id) == 0,
{
}

/// The penalty that a loaded dictionary gives for a word whose details are written in its data is
/// that of the first of them, and 0 for a word without one.
pub proof fn law_loaded_dictionary_gives_the_penalty_of_the_first_detail(
    r: LinderaResult<PrefixDictionary>,
    da_data: Seq<u8>,
    vals_data: Seq<u8>,
    words_idx: Seq<u8>,
    words: Seq<u8>,
    is_system: bool,
    word_id: u32,
)
    requires
        load_outcome(r, da_data, vals_data, words_idx, words, is_system),
        r is Ok,
    ensures
        r matches Ok(dict) && match first_detail(words_idx, words, word_id) {
            Some(pos) => table_penalty(dict.space_penalty_table@, word_id) == korean_space_penalty(
                pos,
            ),
            None => table_penalty(dict.space_penalty_table@, word_id) == 0,
        },
{
    law_table_holds_the_penalty_of_each_first_detail(words_idx, words, word_id);
}

} // verus!
