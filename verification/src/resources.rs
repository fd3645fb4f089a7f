//! The resource library: which files are indexed, how their text is cleaned
//! and cut into chunks, and what their paths reveal.
use vstd::prelude::*;
use crate::encoding::{encode_hex, hex_lower, lemma_hex_lower_len, sha256, sha256_digest};
use crate::path_safety::{
    extension_and_stem, part_view, parts_view, path_extension, path_keys, path_parts, path_stem, PathPart,
};
use crate::text::{
    append_chars, append_str, chars_equal, chars_equal_str, chars_of, contains_str, contains_text, lowercase, lowercase_chars, parse_i64, parse_i64_text,
    split_by, split_chars, string_of, to_lowercase, trim_chars, trim_text, utf8_len,
    utf8_len_at_least, views, Separator,
};

verus! {

// ---------------------------------------------------------------------------
// File types
// ---------------------------------------------------------------------------

/// The lower-cased extension of the file a path names ("" when it has none).
pub open spec fn file_type_of(p: Seq<char>) -> Seq<char> {
    lowercase(
        match path_extension(p) {
            Some(e) => e,
            None => Seq::empty(),
        },
    )
}

/// The file types that the indexer reads.
pub open spec fn supported_type(t: Seq<char>) -> bool {
    ||| t == "pdf"@
    ||| t == "docx"@
    ||| t == "txt"@
    ||| t == "md"@
    ||| t == "html"@
    ||| t == "htm"@
    ||| t == "csv"@
    ||| t == "tsv"@
    ||| t == "png"@
    ||| t == "jpg"@
    ||| t == "jpeg"@
    ||| t == "webp"@
}

/// The lower-cased extension of the file a path names ("" when it has none).
pub fn file_type(path: &str) -> (r: String)
    ensures
        r@ == file_type_of(path@),
{
    let (ext, _) = extension_and_stem(path);
    match ext {
        Some(e) => to_lowercase(e.as_str()),
        None => {
            proof {
                reveal_strlit("");
                assert(""@ =~= Seq::<char>::empty());
            }
            to_lowercase("")
        },
    }
}

fn is_supported_type(t: &Vec<char>) -> (r: bool)
    ensures
        r == supported_type(t@),
{
    chars_equal_str(t, "pdf") || chars_equal_str(t, "docx") || chars_equal_str(t, "txt")
        || chars_equal_str(t, "md") || chars_equal_str(t, "html") || chars_equal_str(t, "htm")
        || chars_equal_str(t, "csv") || chars_equal_str(t, "tsv") || chars_equal_str(t, "png")
        || chars_equal_str(t, "jpg") || chars_equal_str(t, "jpeg") || chars_equal_str(t, "webp")
}

/// Whether the indexer reads the file a path names, judged by its extension.
pub fn supported(path: &str) -> (r: bool)
    ensures
        r == supported_type(file_type_of(path@)),
{
    let t = file_type(path);
    is_supported_type(&chars_of(t.as_str()))
}

/// The title of a resource: the stem of its file name, or "Untitled resource".
pub open spec fn title_of(p: Seq<char>) -> Seq<char> {
    match path_stem(p) {
        Some(s) => s,
        None => "Untitled resource"@,
    }
}

/// The title under which a file is listed.
pub fn resource_title(path: &str) -> (r: String)
    ensures
        r@ == title_of(path@),
{
    let (_, stem) = extension_and_stem(path);
    match stem {
        Some(s) => s,
        None => "Untitled resource".to_owned(),
    }
}

// ---------------------------------------------------------------------------
// Markup and chunks
// ---------------------------------------------------------------------------

/// The text kept from `s` and whether a tag is still open: characters inside
/// `<...>` are dropped and each closing `>` becomes a space.
pub open spec fn strip_state(s: Seq<char>) -> (Seq<char>, bool)
    decreases s.len(),
{
    if s.len() == 0 {
        (Seq::empty(), false)
    } else {
        let (out, in_tag) = strip_state(s.drop_last());
        let c = s.last();
        if c == '<' {
            (out, true)
        } else if c == '>' {
            (out.push(' '), false)
        } else if !in_tag {
            (out.push(c), in_tag)
        } else {
            (out, in_tag)
        }
    }
}

/// Removes HTML tags from `value`, replacing each tag end with a space.
pub fn strip_markup(value: &str) -> (r: String)
    ensures
        r@ == strip_state(value@).0,
{
    let chars = chars_of(value);
    let mut result: Vec<char> = Vec::new();
    let mut in_tag = false;
    for i in 0..chars.len()
        invariant
            (result@, in_tag) == strip_state(chars@.take(i as int)),
    {
        let c = chars[i];
        assert(chars@.take(i + 1).drop_last() == chars@.take(i as int));
        assert(chars@.take(i + 1).last() == c);
        if c == '<' {
            in_tag = true;
        } else if c == '>' {
            in_tag = false;
            result.push(' ');
        } else if !in_tag {
            result.push(c);
        }
    }
    assert(chars@.take(chars.len() as int) == chars@);
    string_of(&result)
}

/// Stripped text never holds a `<` or a `>`.
pub proof fn stripped_text_has_no_angle_brackets(s: Seq<char>)
    ensures
        forall|i: int|
            0 <= i < strip_state(s).0.len() ==> strip_state(s).0[i] != '<' && strip_state(s).0[i]
                != '>',
    decreases s.len(),
{
    if s.len() > 0 {
        stripped_text_has_no_angle_brackets(s.drop_last());
        let (out, in_tag) = strip_state(s.drop_last());
        let c = s.last();
        let res = strip_state(s).0;
        assert forall|i: int| 0 <= i < res.len() implies res[i] != '<' && res[i] != '>' by {
            if i < out.len() {
                assert(res[i] == out[i]);
            }
        }
    }
}

/// The chunks of `chars` from position `start` on: each is at most `size`
/// characters long and the next one starts `overlap` characters before the
/// previous one ends.
pub open spec fn chunks_from(chars: Seq<char>, start: int, size: int, overlap: int) -> Seq<Seq<char>>
    decreases chars.len() - start,
{
    if start < 0 || start >= chars.len() || size <= overlap || overlap < 0 {
        Seq::empty()
    } else {
        let end = if start + size < chars.len() {
            start + size
        } else {
            chars.len() as int
        };
        let first = seq![chars.subrange(start, end)];
        if end == chars.len() {
            first
        } else {
            first + chunks_from(chars, end - overlap, size, overlap)
        }
    }
}

/// The chunks that a text is cut into for search.
pub open spec fn chunks_of(chars: Seq<char>, size: int, overlap: int) -> Seq<Seq<char>> {
    chunks_from(chars, 0, size, overlap)
}

/// Cuts `value` into chunks of at most `size` characters, each chunk
/// repeating the last `overlap` characters of the one before.
pub fn chunk_text(value: &str, size: usize, overlap: usize) -> (r: Vec<String>)
    requires
        overlap < size,
        value@.len() + size <= usize::MAX,
    ensures
        r@.map_values(|s: String| s@) == chunks_of(value@, size as int, overlap as int),
{
    let characters = chars_of(value);
    let mut chunks: Vec<String> = Vec::new();
    if characters.len() == 0 {
        assert(chunks@.map_values(|s: String| s@) =~= chunks_of(value@, size as int, overlap as int));
        return chunks;
    }
    let mut start: usize = 0;
    while start < characters.len()
        invariant_except_break
            start < characters.len(),
            chunks@.map_values(|s: String| s@) + chunks_from(
                characters@,
                start as int,
                size as int,
                overlap as int,
            ) == chunks_of(value@, size as int, overlap as int),
        invariant
            characters@ == value@,
            overlap < size,
            characters@.len() + size <= usize::MAX,
        ensures
            chunks@.map_values(|s: String| s@) == chunks_of(value@, size as int, overlap as int),
        decreases characters.len() - start,
    {
        let end = if start + size < characters.len() {
            start + size
        } else {
            characters.len()
        };
        let mut piece: Vec<char> = Vec::new();
        for k in start..end
            invariant
                start <= end <= characters.len(),
                piece@ == characters@.subrange(start as int, k as int),
        {
            piece.push(characters[k]);
            assert(characters@.subrange(start as int, k + 1) == characters@.subrange(
                start as int,
                k as int,
            ).push(characters@[k as int]));
        }
        let ghost old_chunks = chunks@.map_values(|s: String| s@);
        let ghost rest = chunks_from(characters@, start as int, size as int, overlap as int);
        chunks.push(string_of(&piece));
        assert(chunks@.map_values(|s: String| s@) =~= old_chunks.push(piece@));
        if end == characters.len() {
            assert(rest =~= seq![piece@]);
            assert(old_chunks + rest =~= old_chunks.push(piece@));
            break;
        }
        let next = end - overlap;
        assert(rest =~= seq![piece@] + chunks_from(
            characters@,
            next as int,
            size as int,
            overlap as int,
        ));
        assert(old_chunks + rest =~= old_chunks.push(piece@) + chunks_from(
            characters@,
            next as int,
            size as int,
            overlap as int,
        ));
        start = next;
    }
    chunks
}

/// Puts overlapping chunks back together: each chunk after the first
/// contributes what follows its first `overlap` characters.
pub open spec fn rejoin(chunks: Seq<Seq<char>>, overlap: int) -> Seq<char>
    decreases chunks.len(),
{
    if chunks.len() == 0 {
        Seq::empty()
    } else if chunks.len() == 1 {
        chunks[0]
    } else {
        chunks[0] + rejoin(chunks.drop_first(), overlap).skip(overlap)
    }
}

proof fn lemma_rejoin_from(chars: Seq<char>, start: int, size: int, overlap: int)
    requires
        0 <= start < chars.len(),
        0 <= overlap < size,
    ensures
        rejoin(chunks_from(chars, start, size, overlap), overlap) == chars.subrange(
            start,
            chars.len() as int,
        ),
        chunks_from(chars, start, size, overlap).len() >= 1,
        chunks_from(chars, start, size, overlap)[0] == chars.subrange(
            start,
            if start + size < chars.len() {
                start + size
            } else {
                chars.len() as int
            },
        ),
    decreases chars.len() - start,
{
    let end = if start + size < chars.len() {
        start + size
    } else {
        chars.len() as int
    };
    let cs = chunks_from(chars, start, size, overlap);
    if end == chars.len() {
        assert(cs =~= seq![chars.subrange(start, end)]);
    } else {
        let next = end - overlap;
        lemma_rejoin_from(chars, next, size, overlap);
        let rest = chunks_from(chars, next, size, overlap);
        assert(cs =~= seq![chars.subrange(start, end)] + rest);
        assert(cs.drop_first() =~= rest);
        assert(rejoin(rest, overlap).skip(overlap) =~= chars.subrange(end, chars.len() as int));
        assert(chars.subrange(start, end) + chars.subrange(end, chars.len() as int) =~= chars.subrange(
            start,
            chars.len() as int,
        ));
    }
}

/// Cutting a text into overlapping chunks loses nothing: dropping each
/// chunk's overlap with the previous one and joining them gives the text back,
/// and no chunk is empty or longer than `size`.
pub proof fn chunks_overlap_without_losing_text(chars: Seq<char>, size: int, overlap: int)
    requires
        0 <= overlap < size,
    ensures
        rejoin(chunks_of(chars, size, overlap), overlap) == chars,
        forall|i: int|
            0 <= i < chunks_of(chars, size, overlap).len() ==> 0 < #[trigger] chunks_of(
                chars,
                size,
                overlap,
            )[i].len() <= size,
{
    if chars.len() > 0 {
        lemma_rejoin_from(chars, 0, size, overlap);
        assert(chars.subrange(0, chars.len() as int) =~= chars);
    } else {
        assert(chunks_of(chars, size, overlap) =~= Seq::<Seq<char>>::empty());
    }
    lemma_chunk_lengths(chars, 0, size, overlap);
}

proof fn lemma_chunk_lengths(chars: Seq<char>, start: int, size: int, overlap: int)
    requires
        0 <= overlap < size,
        0 <= start,
    ensures
        forall|i: int|
            0 <= i < chunks_from(chars, start, size, overlap).len() ==> 0 < #[trigger] chunks_from(
                chars,
                start,
                size,
                overlap,
            )[i].len() <= size,
    decreases chars.len() - start,
{
    if start < chars.len() {
        let end = if start + size < chars.len() {
            start + size
        } else {
            chars.len() as int
        };
        let cs = chunks_from(chars, start, size, overlap);
        if end < chars.len() {
            lemma_chunk_lengths(chars, end - overlap, size, overlap);
            let rest = chunks_from(chars, end - overlap, size, overlap);
            assert forall|i: int| 0 <= i < cs.len() implies 0 < #[trigger] cs[i].len() <= size by {
                if i > 0 {
                    assert(cs[i] == rest[i - 1]);
                }
            }
        }
    }
}

} // verus!

verus! {

// ---------------------------------------------------------------------------
// Metadata from paths
// ---------------------------------------------------------------------------

/// Number of entries in the subject table.
pub const SUBJECT_TABLE_LEN: usize = 15;

/// Entry `i` of the subject table: a lower-case fragment of a path and the
/// subject it indicates. Earlier entries win.
pub open spec fn subject_entry(i: int) -> (Seq<char>, Seq<char>) {
    if i == 0 {
        ("mathemat"@, "Mathematics"@)
    } else if i == 1 {
        ("physics"@, "Physics"@)
    } else if i == 2 {
        ("chemistry"@, "Chemistry"@)
    } else if i == 3 {
        ("biology"@, "Biology"@)
    } else if i == 4 {
        ("economics"@, "Economics"@)
    } else if i == 5 {
        ("business"@, "Business Management"@)
    } else if i == 6 {
        ("history"@, "History"@)
    } else if i == 7 {
        ("geography"@, "Geography"@)
    } else if i == 8 {
        ("psychology"@, "Psychology"@)
    } else if i == 9 {
        ("computer science"@, "Computer Science"@)
    } else if i == 10 {
        ("english"@, "English"@)
    } else if i == 11 {
        ("french"@, "French"@)
    } else if i == 12 {
        ("spanish"@, "Spanish"@)
    } else if i == 13 {
        ("chinese"@, "Chinese"@)
    } else {
        ("tok"@, "Theory of Knowledge"@)
    }
}

fn subject_entry_exec(i: usize) -> (r: (&'static str, &'static str))
    requires
        i < SUBJECT_TABLE_LEN,
    ensures
        (r.0@, r.1@) == subject_entry(i as int),
{
    if i == 0 {
        ("mathemat", "Mathematics")
    } else if i == 1 {
        ("physics", "Physics")
    } else if i == 2 {
        ("chemistry", "Chemistry")
    } else if i == 3 {
        ("biology", "Biology")
    } else if i == 4 {
        ("economics", "Economics")
    } else if i == 5 {
        ("business", "Business Management")
    } else if i == 6 {
        ("history", "History")
    } else if i == 7 {
        ("geography", "Geography")
    } else if i == 8 {
        ("psychology", "Psychology")
    } else if i == 9 {
        ("computer science", "Computer Science")
    } else if i == 10 {
        ("english", "English")
    } else if i == 11 {
        ("french", "French")
    } else if i == 12 {
        ("spanish", "Spanish")
    } else if i == 13 {
        ("chinese", "Chinese")
    } else {
        ("tok", "Theory of Knowledge")
    }
}

/// The subject of the first table entry (from `i` on) whose fragment occurs
/// in the lower-cased path.
pub open spec fn subject_hint_from(lower: Seq<char>, i: int) -> Option<Seq<char>>
    decreases 15 - i,
{
    if i < 0 || i >= 15 {
        None
    } else if contains_text(lower, subject_entry(i).0) {
        Some(subject_entry(i).1)
    } else {
        subject_hint_from(lower, i + 1)
    }
}

/// A path is hinted with the subject whose name (or the fragment "mathemat",
/// or "tok") its lower-cased text holds, the first in the order
/// Mathematics, Physics, Chemistry, Biology, Economics, Business Management,
/// History, Geography, Psychology, Computer Science, English, French, Spanish,
/// Chinese, Theory of Knowledge; with none of them it gets no subject.
pub proof fn subjects_are_hinted_by_their_names(lower: Seq<char>)
    ensures
        contains_text(lower, "mathemat"@) ==> subject_hint_from(lower, 0) == Some("Mathematics"@),
        contains_text(lower, "physics"@) && !contains_text(lower, "mathemat"@) ==> subject_hint_from(lower, 0) == Some("Physics"@),
        contains_text(lower, "chemistry"@) && !contains_text(lower, "mathemat"@) && !contains_text(lower, "physics"@) ==> subject_hint_from(lower, 0) == Some("Chemistry"@),
        contains_text(lower, "biology"@) && !contains_text(lower, "mathemat"@) && !contains_text(lower, "physics"@) && !contains_text(lower, "chemistry"@) ==> subject_hint_from(lower, 0) == Some("Biology"@),
        contains_text(lower, "economics"@) && !contains_text(lower, "mathemat"@) && !contains_text(lower, "physics"@) && !contains_text(lower, "chemistry"@) && !contains_text(lower, "biology"@) ==> subject_hint_from(lower, 0) == Some("Economics"@),
        contains_text(lower, "business"@) && !contains_text(lower, "mathemat"@) && !contains_text(lower, "physics"@) && !contains_text(lower, "chemistry"@) && !contains_text(lower, "biology"@) && !contains_text(lower, "economics"@) ==> subject_hint_from(lower, 0) == Some("Business Management"@),
        contains_text(lower, "history"@) && !contains_text(lower, "mathemat"@) && !contains_text(lower, "physics"@) && !contains_text(lower, "chemistry"@) && !contains_text(lower, "biology"@) && !contains_text(lower, "economics"@) && !contains_text(lower, "business"@) ==> subject_hint_from(lower, 0) == Some("History"@),
        contains_text(lower, "geography"@) && !contains_text(lower, "mathemat"@) && !contains_text(lower, "physics"@) && !contains_text(lower, "chemistry"@) && !contains_text(lower, "biology"@) && !contains_text(lower, "economics"@) && !contains_text(lower, "business"@) && !contains_text(lower, "history"@) ==> subject_hint_from(lower, 0) == Some("Geography"@),
        contains_text(lower, "psychology"@) && !contains_text(lower, "mathemat"@) && !contains_text(lower, "physics"@) && !contains_text(lower, "chemistry"@) && !contains_text(lower, "biology"@) && !contains_text(lower, "economics"@) && !contains_text(lower, "business"@) && !contains_text(lower, "history"@) && !contains_text(lower, "geography"@) ==> subject_hint_from(lower, 0) == Some("Psychology"@),
        contains_text(lower, "computer science"@) && !contains_text(lower, "mathemat"@) && !contains_text(lower, "physics"@) && !contains_text(lower, "chemistry"@) && !contains_text(lower, "biology"@) && !contains_text(lower, "economics"@) && !contains_text(lower, "business"@) && !contains_text(lower, "history"@) && !contains_text(lower, "geography"@) && !contains_text(lower, "psychology"@) ==> subject_hint_from(lower, 0) == Some("Computer Science"@),
        contains_text(lower, "english"@) && !contains_text(lower, "mathemat"@) && !contains_text(lower, "physics"@) && !contains_text(lower, "chemistry"@) && !contains_text(lower, "biology"@) && !contains_text(lower, "economics"@) && !contains_text(lower, "business"@) && !contains_text(lower, "history"@) && !contains_text(lower, "geography"@) && !contains_text(lower, "psychology"@) && !contains_text(lower, "computer science"@) ==> subject_hint_from(lower, 0) == Some("English"@),
        contains_text(lower, "french"@) && !contains_text(lower, "mathemat"@) && !contains_text(lower, "physics"@) && !contains_text(lower, "chemistry"@) && !contains_text(lower, "biology"@) && !contains_text(lower, "economics"@) && !contains_text(lower, "business"@) && !contains_text(lower, "history"@) && !contains_text(lower, "geography"@) && !contains_text(lower, "psychology"@) && !contains_text(lower, "computer science"@) && !contains_text(lower, "english"@) ==> subject_hint_from(lower, 0) == Some("French"@),
        contains_text(lower, "spanish"@) && !contains_text(lower, "mathemat"@) && !contains_text(lower, "physics"@) && !contains_text(lower, "chemistry"@) && !contains_text(lower, "biology"@) && !contains_text(lower, "economics"@) && !contains_text(lower, "business"@) && !contains_text(lower, "history"@) && !contains_text(lower, "geography"@) && !contains_text(lower, "psychology"@) && !contains_text(lower, "computer science"@) && !contains_text(lower, "english"@) && !contains_text(lower, "french"@) ==> subject_hint_from(lower, 0) == Some("Spanish"@),
        contains_text(lower, "chinese"@) && !contains_text(lower, "mathemat"@) && !contains_text(lower, "physics"@) && !contains_text(lower, "chemistry"@) && !contains_text(lower, "biology"@) && !contains_text(lower, "economics"@) && !contains_text(lower, "business"@) && !contains_text(lower, "history"@) && !contains_text(lower, "geography"@) && !contains_text(lower, "psychology"@) && !contains_text(lower, "computer science"@) && !contains_text(lower, "english"@) && !contains_text(lower, "french"@) && !contains_text(lower, "spanish"@) ==> subject_hint_from(lower, 0) == Some("Chinese"@),
        contains_text(lower, "tok"@) && !contains_text(lower, "mathemat"@) && !contains_text(lower, "physics"@) && !contains_text(lower, "chemistry"@) && !contains_text(lower, "biology"@) && !contains_text(lower, "economics"@) && !contains_text(lower, "business"@) && !contains_text(lower, "history"@) && !contains_text(lower, "geography"@) && !contains_text(lower, "psychology"@) && !contains_text(lower, "computer science"@) && !contains_text(lower, "english"@) && !contains_text(lower, "french"@) && !contains_text(lower, "spanish"@) && !contains_text(lower, "chinese"@) ==> subject_hint_from(lower, 0) == Some("Theory of Knowledge"@),
        !contains_text(lower, "mathemat"@) && !contains_text(lower, "physics"@) && !contains_text(lower, "chemistry"@) && !contains_text(lower, "biology"@) && !contains_text(lower, "economics"@) && !contains_text(lower, "business"@) && !contains_text(lower, "history"@) && !contains_text(lower, "geography"@) && !contains_text(lower, "psychology"@) && !contains_text(lower, "computer science"@) && !contains_text(lower, "english"@) && !contains_text(lower, "french"@) && !contains_text(lower, "spanish"@) && !contains_text(lower, "chinese"@) && !contains_text(lower, "tok"@) ==> subject_hint_from(lower, 0) is None,
{
    reveal_with_fuel(subject_hint_from, 16);
}

/// The year a piece of digits names: exactly four digits (four bytes, the
/// pieces being ASCII) whose value lies in 2000..=2100.
pub open spec fn year_token(t: Seq<char>) -> Option<int> {
    if t.len() == 4 {
        match parse_i64_text(t) {
            Some(v) => if 2000 <= v <= 2100 {
                Some(v as int)
            } else {
                None
            },
            None => None,
        }
    } else {
        None
    }
}

/// The year of the first piece that names one.
pub open spec fn first_year(pieces: Seq<Seq<char>>) -> Option<int>
    decreases pieces.len(),
{
    if pieces.len() == 0 {
        None
    } else {
        match year_token(pieces[0]) {
            Some(y) => Some(y),
            None => first_year(pieces.drop_first()),
        }
    }
}

/// The year hinted at by a lower-cased path: the first run of digits that
/// names a year.
pub open spec fn year_hint_of(lower: Seq<char>) -> Option<int> {
    first_year(split_by(lower, Separator::NotAsciiDigit))
}

pub open spec fn opt_chars(o: Option<String>) -> Option<Seq<char>> {
    match o {
        Some(s) => Some(s@),
        None => None,
    }
}

fn year_hint_in(lower: &Vec<char>) -> (r: Option<i64>)
    ensures
        match year_hint_of(lower@) {
            Some(y) => r == Some(y as i64),
            None => r is None,
        },
{
    let pieces = split_chars(lower, &Separator::NotAsciiDigit);
    let ghost ps = split_by(lower@, Separator::NotAsciiDigit);
    let mut i: usize = 0;
    assert(ps.skip(0) =~= ps);
    while i < pieces.len()
        invariant
            ps == crate::text::views(pieces@),
            ps == split_by(lower@, Separator::NotAsciiDigit),
            i <= pieces.len(),
            first_year(ps) == first_year(ps.skip(i as int)),
        decreases pieces.len() - i,
    {
        let ghost rest = ps.skip(i as int);
        assert(rest[0] == pieces@[i as int]@);
        assert(rest.drop_first() =~= ps.skip(i + 1));
        let t = &pieces[i];
        assert(first_year(rest) == match year_token(rest[0]) {
            Some(y) => Some(y),
            None => first_year(rest.drop_first()),
        });
        if t.len() == 4 {
            match parse_i64(t) {
                Some(v) => {
                    if 2000 <= v && v <= 2100 {
                        assert(year_token(rest[0]) == Some(v as int));
                        return Some(v);
                    }
                },
                None => {},
            }
        }
        assert(year_token(rest[0]) is None);
        i += 1;
    }
    None
}

fn subject_hint_in(lower: &Vec<char>) -> (r: Option<String>)
    ensures
        opt_chars(r) == subject_hint_from(lower@, 0),
{
    let mut i: usize = 0;
    while i < SUBJECT_TABLE_LEN
        invariant
            i <= SUBJECT_TABLE_LEN,
            subject_hint_from(lower@, 0) == subject_hint_from(lower@, i as int),
        decreases SUBJECT_TABLE_LEN - i,
    {
        let (needle, name) = subject_entry_exec(i);
        if contains_str(lower, needle) {
            return Some(name.to_owned());
        }
        i += 1;
    }
    None
}

/// The subject and exam year that a lower-cased path hints at.
pub fn infer_metadata_lowercased(lower: &Vec<char>) -> (r: (Option<String>, Option<i64>))
    ensures
        opt_chars(r.0) == subject_hint_from(lower@, 0),
        match year_hint_of(lower@) {
            Some(y) => r.1 == Some(y as i64),
            None => r.1 is None,
        },
{
    (subject_hint_in(lower), year_hint_in(lower))
}

/// The subject and exam year that a file path hints at, read conservatively:
/// the first subject of the table whose fragment appears in the lower-cased
/// path, and the first run of exactly four digits that is a year from 2000 to
/// 2100.
pub fn infer_metadata(path: &str) -> (r: (Option<String>, Option<i64>))
    ensures
        opt_chars(r.0) == subject_hint_from(lowercase(path@), 0),
        match year_hint_of(lowercase(path@)) {
            Some(y) => r.1 == Some(y as i64),
            None => r.1 is None,
        },
{
    let lower = lowercase_chars(path);
    infer_metadata_lowercased(&lower)
}

// ---------------------------------------------------------------------------
// Extraction results
// ---------------------------------------------------------------------------

/// Least number of bytes of trimmed text that makes a document ready.
pub const MIN_READY_TEXT_BYTES: usize = 40;

/// Characters per search chunk.
pub const CHUNK_SIZE: usize = 1800;

/// Characters that consecutive search chunks share.
pub const CHUNK_OVERLAP: usize = 180;

/// File types whose empty extraction is handed to OCR.
pub open spec fn ocr_type(t: Seq<char>) -> bool {
    t == "png"@ || t == "jpg"@ || t == "jpeg"@ || t == "webp"@ || t == "pdf"@
}

/// What indexing keeps of an extraction attempt.
pub struct ExtractionOutcome {
    /// The text to chunk and search (empty unless the document is ready).
    pub text: String,
    /// "ready", "ocr_pending", "metadata" or "failed".
    pub state: String,
    /// The extraction error, for a failed document.
    pub error: Option<String>,
}

/// Decides what indexing keeps of an extraction result: text with at least 40
/// bytes besides surrounding white space is ready; a shorter text of an image
/// or PDF waits for OCR; any other short text keeps only metadata; an error
/// marks the document as failed.
pub fn classify_extraction(extracted: Result<String, String>, file_type: &str) -> (r:
    ExtractionOutcome)
    ensures
        match extracted {
            Ok(v) => if utf8_len(trim_text(v@)) >= 40 {
                r.text@ == v@ && r.state@ == "ready"@ && r.error is None
            } else if ocr_type(file_type@) {
                r.text@.len() == 0 && r.state@ == "ocr_pending"@ && r.error is None
            } else {
                r.text@.len() == 0 && r.state@ == "metadata"@ && r.error is None
            },
            Err(e) => r.text@.len() == 0 && r.state@ == "failed"@ && r.error == Some(e),
        },
{
    match extracted {
        Ok(value) => {
            let trimmed = trim_chars(&chars_of(value.as_str()));
            if utf8_len_at_least(&trimmed, MIN_READY_TEXT_BYTES) {
                ExtractionOutcome { text: value, state: "ready".to_owned(), error: None }
            } else {
                let t = chars_of(file_type);
                let ocr = chars_equal_str(&t, "png") || chars_equal_str(&t, "jpg")
                    || chars_equal_str(&t, "jpeg") || chars_equal_str(&t, "webp")
                    || chars_equal_str(&t, "pdf");
                let state = if ocr {
                    "ocr_pending".to_owned()
                } else {
                    "metadata".to_owned()
                };
                ExtractionOutcome { text: String::new(), state, error: None }
            }
        },
        Err(e) => ExtractionOutcome { text: String::new(), state: "failed".to_owned(), error: Some(e) },
    }
}

/// How the text of a file is read.
#[derive(PartialEq, Eq, Structural, Clone, Copy, Debug)]
pub enum ExtractionMethod {
    /// Text extraction from a PDF.
    Pdf,
    /// The text runs of a Word document's `word/document.xml`.
    Docx,
    /// The file itself, read up to 12 MiB.
    PlainText,
    /// The file read up to 8 MiB, with its markup stripped.
    Markup,
    /// Optical character recognition of an image.
    Ocr,
    /// The file type carries no text.
    NoText,
}

/// Bytes of a plain-text file that are read.
pub const PLAIN_TEXT_READ_LIMIT: usize = 12582912;

/// Bytes of a markup file that are read.
pub const MARKUP_READ_LIMIT: usize = 8388608;

/// The way a file of (lower-cased) type `t` is read.
pub open spec fn extraction_method_of(t: Seq<char>) -> ExtractionMethod {
    if t == "pdf"@ {
        ExtractionMethod::Pdf
    } else if t == "docx"@ {
        ExtractionMethod::Docx
    } else if t == "txt"@ || t == "md"@ || t == "csv"@ || t == "tsv"@ {
        ExtractionMethod::PlainText
    } else if t == "html"@ || t == "htm"@ {
        ExtractionMethod::Markup
    } else if t == "png"@ || t == "jpg"@ || t == "jpeg"@ || t == "webp"@ {
        ExtractionMethod::Ocr
    } else {
        ExtractionMethod::NoText
    }
}

/// How to read the text of a file of type `file_type`.
pub fn extraction_method(file_type: &str) -> (r: ExtractionMethod)
    ensures
        r == extraction_method_of(file_type@),
{
    let t = chars_of(file_type);
    if chars_equal_str(&t, "pdf") {
        ExtractionMethod::Pdf
    } else if chars_equal_str(&t, "docx") {
        ExtractionMethod::Docx
    } else if chars_equal_str(&t, "txt") || chars_equal_str(&t, "md") || chars_equal_str(&t, "csv")
        || chars_equal_str(&t, "tsv") {
        ExtractionMethod::PlainText
    } else if chars_equal_str(&t, "html") || chars_equal_str(&t, "htm") {
        ExtractionMethod::Markup
    } else if chars_equal_str(&t, "png") || chars_equal_str(&t, "jpg") || chars_equal_str(
        &t,
        "jpeg",
    ) || chars_equal_str(&t, "webp") {
        ExtractionMethod::Ocr
    } else {
        ExtractionMethod::NoText
    }
}

/// Every type that the library indexes is read in some way other than
/// "no text".
pub proof fn supported_types_carry_text(t: Seq<char>)
    requires
        supported_type(t),
    ensures
        extraction_method_of(t) != ExtractionMethod::NoText,
{
}

/// The indexer reads exactly the types it has a way to read text from: PDF
/// files, Word documents, plain text (txt, md, csv, tsv), markup (html, htm)
/// and images (png, jpg, jpeg, webp).
pub proof fn readable_types_are_exactly_the_supported_ones(t: Seq<char>)
    ensures
        supported_type(t) <==> extraction_method_of(t) != ExtractionMethod::NoText,
        t == "pdf"@ ==> supported_type(t) && extraction_method_of(t) == ExtractionMethod::Pdf,
        t == "docx"@ ==> supported_type(t) && extraction_method_of(t) == ExtractionMethod::Docx,
        t == "txt"@ || t == "md"@ || t == "csv"@ || t == "tsv"@ ==> supported_type(t)
            && extraction_method_of(t) == ExtractionMethod::PlainText,
        t == "html"@ || t == "htm"@ ==> supported_type(t) && extraction_method_of(t)
            == ExtractionMethod::Markup,
        t == "png"@ || t == "jpg"@ || t == "jpeg"@ || t == "webp"@ ==> supported_type(t)
            && extraction_method_of(t) == ExtractionMethod::Ocr,
{
    reveal_strlit("pdf");
    reveal_strlit("docx");
    reveal_strlit("txt");
    reveal_strlit("md");
    reveal_strlit("csv");
    reveal_strlit("tsv");
    reveal_strlit("html");
    reveal_strlit("htm");
    reveal_strlit("png");
    reveal_strlit("jpg");
    reveal_strlit("jpeg");
    reveal_strlit("webp");
    assert("pdf"@ =~= seq!['p', 'd', 'f']);
    assert("docx"@ =~= seq!['d', 'o', 'c', 'x']);
    assert("txt"@ =~= seq!['t', 'x', 't']);
    assert("md"@ =~= seq!['m', 'd']);
    assert("csv"@ =~= seq!['c', 's', 'v']);
    assert("tsv"@ =~= seq!['t', 's', 'v']);
    assert("html"@ =~= seq!['h', 't', 'm', 'l']);
    assert("htm"@ =~= seq!['h', 't', 'm']);
    assert("png"@ =~= seq!['p', 'n', 'g']);
    assert("jpg"@ =~= seq!['j', 'p', 'g']);
    assert("jpeg"@ =~= seq!['j', 'p', 'e', 'g']);
    assert("webp"@ =~= seq!['w', 'e', 'b', 'p']);
}

/// The text runs of an XML document, in document order, as `quick_xml`'s
/// `Reader` reads them from a string with text trimming on: the raw content
/// of every text event up to the end of the document; `None` when the reader
/// reports an error first.
pub uninterp spec fn xml_text_runs(xml: Seq<char>) -> Option<Seq<Seq<char>>>;

/// Reads `xml` with `quick_xml::Reader::from_str` (text trimmed) until the end
/// of the document, collecting the raw content of each text event. The
/// contract names the runs; XML tokenizing is not restated here.
#[verifier::external_body]
fn xml_text_runs_of(xml: &str) -> (r: Result<Vec<String>, String>)
    ensures
        r is Ok <==> xml_text_runs(xml@) is Some,
        r matches Ok(v) ==> xml_text_runs(xml@) == Some(v@.map_values(|s: String| s@)),
{
    let mut reader = quick_xml::Reader::from_str(xml);
    reader.config_mut().trim_text(true);
    let mut runs = Vec::new();
    loop {
        match reader.read_event() {
            Ok(quick_xml::events::Event::Text(text)) => runs.push(text.into_inner().into_owned()),
            Ok(quick_xml::events::Event::Eof) => return Ok(runs),
            Err(error) => return Err(error.to_string()),
            _ => {},
        }
    }
}

/// The runs joined with each one followed by a space.
pub open spec fn runs_each_followed_by_space(runs: Seq<Seq<char>>) -> Seq<char>
    decreases runs.len(),
{
    if runs.len() == 0 {
        Seq::empty()
    } else {
        runs_each_followed_by_space(runs.drop_last()) + runs.last() + seq![' ']
    }
}

/// The text of a Word document given its `word/document.xml`: every text run
/// followed by a space; the reader's error when the XML is malformed.
pub fn docx_text(document_xml: &str) -> (r: Result<String, String>)
    ensures
        r is Ok <==> xml_text_runs(document_xml@) is Some,
        r matches Ok(t) ==> t@ == runs_each_followed_by_space(xml_text_runs(document_xml@)->0),
{
    match xml_text_runs_of(document_xml) {
        Err(e) => Err(e),
        Ok(runs) => {
            let ghost rv = runs@.map_values(|s: String| s@);
            let mut out: Vec<char> = Vec::new();
            for i in 0..runs.len()
                invariant
                    rv == runs@.map_values(|s: String| s@),
                    out@ == runs_each_followed_by_space(rv.take(i as int)),
            {
                assert(rv.take(i + 1).drop_last() =~= rv.take(i as int));
                append_str(&mut out, runs[i].as_str());
                out.push(' ');
            }
            assert(rv.take(runs.len() as int) =~= rv);
            Ok(string_of(&out))
        },
    }
}

/// The fingerprint by which identical files are found: the lower-case
/// hexadecimal SHA-256 digest of their bytes.
pub fn file_digest(data: &[u8]) -> (r: String)
    ensures
        r@ == hex_lower(sha256_digest(data@)),
        r@.len() == 64,
{
    let digest = sha256(data);
    proof {
        lemma_hex_lower_len(digest@);
    }
    encode_hex(digest.as_slice())
}

// ---------------------------------------------------------------------------
// Search
// ---------------------------------------------------------------------------

/// Fewest and most results a search returns, and the default.
pub const MIN_SEARCH_LIMIT: i64 = 1;

pub const MAX_SEARCH_LIMIT: i64 = 200;

pub const DEFAULT_SEARCH_LIMIT: i64 = 50;

/// The number of results a search asks for: 50 unless given, kept within 1..=200.
pub fn search_limit(limit: Option<i64>) -> (r: i64)
    ensures
        r == match limit {
            Some(l) => if l < 1 {
                1
            } else if l > 200 {
                200
            } else {
                l as int
            },
            None => 50,
        },
{
    let l = match limit {
        Some(l) => l,
        None => DEFAULT_SEARCH_LIMIT,
    };
    if l < MIN_SEARCH_LIMIT {
        MIN_SEARCH_LIMIT
    } else if l > MAX_SEARCH_LIMIT {
        MAX_SEARCH_LIMIT
    } else {
        l
    }
}

/// `s` without its `"` characters.
pub open spec fn without_quotes(s: Seq<char>) -> Seq<char> {
    s.filter(not_quote_pred())
}

pub open spec fn not_quote_pred() -> spec_fn(char) -> bool {
    |c: char| c != '"'
}

pub open spec fn nonempty_pred() -> spec_fn(Seq<char>) -> bool {
    |w: Seq<char>| w.len() > 0
}

/// One full-text search term: a word of the query, quotes removed, in quotes.
pub open spec fn quoted_term(word: Seq<char>) -> Seq<char> {
    seq!['"'] + without_quotes(word) + seq!['"']
}

/// The non-empty white-space separated words of a query.
pub open spec fn query_words(q: Seq<char>) -> Seq<Seq<char>> {
    split_by(q, Separator::WhiteSpace).filter(nonempty_pred())
}

/// Quoted terms joined by " OR ".
pub open spec fn or_terms(words: Seq<Seq<char>>) -> Seq<char>
    decreases words.len(),
{
    if words.len() == 0 {
        Seq::empty()
    } else if words.len() == 1 {
        quoted_term(words[0])
    } else {
        or_terms(words.drop_last()) + " OR "@ + quoted_term(words.last())
    }
}

} // verus!

verus! {

fn quoted(word: &Vec<char>) -> (r: Vec<char>)
    ensures
        r@ == quoted_term(word@),
{
    let mut r: Vec<char> = Vec::new();
    r.push('"');
    proof {
        reveal(Seq::filter);
        assert(word@.take(0) =~= Seq::<char>::empty());
    }
    for i in 0..word.len()
        invariant
            r@ == seq!['"'] + without_quotes(word@.take(i as int)),
    {
        let ghost before = word@.take(i as int);
        assert(word@.take(i + 1) == before.push(word@[i as int]));
        proof {
            before.lemma_filter_push(word@[i as int], not_quote_pred());
        }
        if word[i] != '"' {
            r.push(word[i]);
            assert(r@ =~= seq!['"'] + without_quotes(word@.take(i + 1)));
        }
    }
    assert(word@.take(word.len() as int) == word@);
    r.push('"');
    r
}

pub open spec fn is_quote_pred() -> spec_fn(char) -> bool {
    |c: char| c == '"'
}

/// Number of `"` characters in `s`.
pub open spec fn quote_count(s: Seq<char>) -> nat {
    s.filter(is_quote_pred()).len()
}

proof fn lemma_quote_count_add(a: Seq<char>, b: Seq<char>)
    ensures
        quote_count(a + b) == quote_count(a) + quote_count(b),
{
    Seq::filter_distributes_over_add(a, b, is_quote_pred());
}

proof fn lemma_no_quotes(s: Seq<char>)
    requires
        forall|i: int| 0 <= i < s.len() ==> s[i] != '"',
    ensures
        quote_count(s) == 0,
    decreases s.len(),
{
    reveal(Seq::filter);
    if s.len() > 0 {
        lemma_no_quotes(s.drop_last());
    }
}

proof fn lemma_quoted_term_has_two_quotes(word: Seq<char>)
    ensures
        quote_count(quoted_term(word)) == 2,
{
    let inner = without_quotes(word);
    assert forall|i: int| 0 <= i < inner.len() implies inner[i] != '"' by {
        word.lemma_filter_pred(not_quote_pred(), i);
    }
    lemma_no_quotes(inner);
    assert(quote_count(seq!['"']) == 1) by {
        reveal(Seq::filter);
        assert(seq!['"'].drop_last() =~= Seq::<char>::empty());
    }
    lemma_quote_count_add(seq!['"'], inner);
    lemma_quote_count_add(seq!['"'] + inner, seq!['"']);
}

/// Search words cannot break out of their quotes: the full-text query holds
/// exactly two `"` for each word of the search, those around the word.
pub proof fn search_terms_stay_quoted(query: Seq<char>)
    ensures
        quote_count(or_terms(query_words(query))) == 2 * query_words(query).len(),
{
    lemma_or_terms_quotes(query_words(query));
}

proof fn lemma_or_terms_quotes(words: Seq<Seq<char>>)
    ensures
        quote_count(or_terms(words)) == 2 * words.len(),
    decreases words.len(),
{
    if words.len() == 0 {
        reveal(Seq::filter);
    } else if words.len() == 1 {
        lemma_quoted_term_has_two_quotes(words[0]);
    } else {
        lemma_or_terms_quotes(words.drop_last());
        lemma_quoted_term_has_two_quotes(words.last());
        reveal_strlit(" OR ");
        assert(" OR "@ =~= seq![' ', 'O', 'R', ' ']);
        lemma_no_quotes(" OR "@);
        lemma_quote_count_add(or_terms(words.drop_last()), " OR "@);
        lemma_quote_count_add(or_terms(words.drop_last()) + " OR "@, quoted_term(words.last()));
    }
}

/// The pattern of the title-and-path search used when the full-text search
/// finds nothing: the query anywhere in the text.
pub fn fallback_like_pattern(query: &str) -> (r: String)
    ensures
        r@ == seq!['%'] + query@ + seq!['%'],
{
    let mut v: Vec<char> = Vec::new();
    v.push('%');
    append_str(&mut v, query);
    v.push('%');
    string_of(&v)
}

/// The full-text query for a search: each word of the query, with its quotes
/// removed, quoted, and the words joined by " OR ".
pub fn fts_query(query: &str) -> (r: String)
    ensures
        r@ == or_terms(query_words(query@)),
{
    let q = chars_of(query);
    let pieces = split_chars(&q, &Separator::WhiteSpace);
    let mut out: Vec<char> = Vec::new();
    let mut any = false;
    proof {
        reveal(Seq::filter);
        assert(crate::text::views(pieces@.take(0)) =~= Seq::<Seq<char>>::empty());
    }
    for i in 0..pieces.len()
        invariant
            crate::text::views(pieces@) == split_by(q@, Separator::WhiteSpace),
            q@ == query@,
            out@ == or_terms(crate::text::views(pieces@.take(i as int)).filter(nonempty_pred())),
            any == (crate::text::views(pieces@.take(i as int)).filter(nonempty_pred()).len() > 0),
    {
        let ghost before = crate::text::views(pieces@.take(i as int));
        let ghost w = pieces@[i as int]@;
        assert(crate::text::views(pieces@.take(i + 1)) == before.push(w));
        proof {
            before.lemma_filter_push(w, nonempty_pred());
        }
        let ghost words = before.filter(nonempty_pred());
        if pieces[i].len() > 0 {
            let term = quoted(&pieces[i]);
            if any {
                append_str(&mut out, " OR ");
            }
            append_chars(&mut out, &term);
            assert(words.push(w).drop_last() =~= words);
            assert(out@ =~= or_terms(words.push(w)));
            any = true;
        }
    }
    assert(pieces@.take(pieces.len() as int) == pieces@);
    string_of(&out)
}

} // verus!

verus! {

// ---------------------------------------------------------------------------
// The indexer's state
// ---------------------------------------------------------------------------

/// How indexing one file ended.
pub enum IndexOutcome {
    Indexed,
    Skipped,
    Failed,
}

/// Free space on drive D below which indexing pauses itself (10 GiB).
pub const MIN_FREE_BYTES: u64 = 10 * 1024 * 1024 * 1024;

/// Files whose metadata is registered in one transaction.
pub const METADATA_BATCH_SIZE: usize = 200;

/// The state of the resource indexer: what its user sees, and how far the
/// current run has got through the files it found.
pub struct IndexerView {
    pub running: bool,
    pub paused: bool,
    pub cancelled: bool,
    pub scanned: u64,
    pub indexed: u64,
    pub skipped: u64,
    pub failed: u64,
    pub current_file: Seq<char>,
    pub started_at: Option<Seq<char>>,
    /// Files found in this run that have not been started yet.
    pub remaining: u64,
    /// A file has been started and its outcome is not recorded yet.
    pub in_flight: bool,
    /// The run's metadata catalogue failed; that failure is counted once.
    pub catalog_failed: bool,
}

/// Files of the run counted by outcome (a failed catalogue is no file).
pub open spec fn files_counted(v: IndexerView) -> int {
    v.indexed + v.skipped + v.failed - if v.catalog_failed {
        1int
    } else {
        0
    }
}

/// Each file found is counted at most once: the files counted, those not
/// started yet and the one in progress are never more than the files found.
pub open spec fn counts_consistent(v: IndexerView) -> bool {
    &&& v.scanned < u64::MAX
    &&& v.catalog_failed ==> v.failed >= 1
    &&& files_counted(v) + v.remaining + (if v.in_flight {
        1int
    } else {
        0
    }) <= v.scanned
}

/// The resource indexer: whether a run is going on, paused or cancelled, its
/// counters, and how far it has got. The run itself (walking folders,
/// reading files) drives it through the methods below.
pub struct ResourceIndexer {
    running: bool,
    paused: bool,
    cancelled: bool,
    scanned: u64,
    indexed: u64,
    skipped: u64,
    failed: u64,
    current_file: String,
    started_at: Option<String>,
    remaining: u64,
    in_flight: bool,
    catalog_failed: bool,
}

impl View for ResourceIndexer {
    type V = IndexerView;

    closed spec fn view(&self) -> IndexerView {
        IndexerView {
            running: self.running,
            paused: self.paused,
            cancelled: self.cancelled,
            scanned: self.scanned,
            indexed: self.indexed,
            skipped: self.skipped,
            failed: self.failed,
            current_file: self.current_file@,
            started_at: opt_chars(self.started_at),
            remaining: self.remaining,
            in_flight: self.in_flight,
            catalog_failed: self.catalog_failed,
        }
    }
}

/// The message shown while metadata of `n` files is registered.
pub open spec fn registering_message(n: u64) -> Seq<char> {
    "Registering metadata for "@ + crate::text::decimal_digits(n as nat) + " files"@
}

/// The message shown when batch progress reaches file `index` of `total`.
pub open spec fn batch_message(index: usize, total: usize) -> Seq<char> {
    "Registering paper metadata · "@ + crate::text::decimal_digits(index as nat) + " / "@
        + crate::text::decimal_digits(total as nat)
}

/// A run that has not counted, started or failed anything yet.
pub open spec fn fresh_run(v: IndexerView) -> bool {
    v.indexed == 0 && v.skipped == 0 && v.failed == 0 && !v.in_flight && !v.catalog_failed
}

/// The state after a start at time `now` (when no run is going on).
pub open spec fn after_begin(v: IndexerView, now: Seq<char>) -> IndexerView {
    if v.running {
        v
    } else {
        IndexerView {
            running: true,
            paused: false,
            cancelled: false,
            scanned: 0,
            indexed: 0,
            skipped: 0,
            failed: 0,
            started_at: Some(now),
            remaining: 0,
            in_flight: false,
            catalog_failed: false,
            ..v
        }
    }
}

/// The state after `count` files were found: taken into account only while
/// the run has counted nothing yet (and for fewer than `u64::MAX` files).
pub open spec fn after_found(v: IndexerView, count: u64) -> IndexerView {
    if fresh_run(v) && count < u64::MAX {
        IndexerView {
            scanned: count,
            remaining: count,
            current_file: registering_message(count),
            ..v
        }
    } else {
        v
    }
}

/// The state after the metadata catalogue failed: counted once per run.
pub open spec fn after_catalog_failure(v: IndexerView) -> IndexerView {
    if !v.catalog_failed && v.failed < u64::MAX {
        IndexerView { failed: (v.failed + 1) as u64, catalog_failed: true, ..v }
    } else {
        v
    }
}

/// The state after the worker starts `file`: only when a found file is left
/// and none is in progress.
pub open spec fn after_claim(v: IndexerView, file: Seq<char>) -> IndexerView {
    if v.remaining > 0 && !v.in_flight {
        IndexerView {
            remaining: (v.remaining - 1) as u64,
            in_flight: true,
            current_file: file,
            ..v
        }
    } else {
        v
    }
}

/// The state after the outcome of the file in progress is recorded; nothing
/// is counted when no file is in progress.
pub open spec fn after_record(v: IndexerView, outcome: IndexOutcome) -> IndexerView {
    if v.in_flight {
        match outcome {
            IndexOutcome::Indexed => IndexerView {
                indexed: (v.indexed + 1) as u64,
                in_flight: false,
                ..v
            },
            IndexOutcome::Skipped => IndexerView {
                skipped: (v.skipped + 1) as u64,
                in_flight: false,
                ..v
            },
            IndexOutcome::Failed => IndexerView { failed: (v.failed + 1) as u64, in_flight: false, ..v },
        }
    } else {
        v
    }
}

/// Recording the outcome of the file in progress raises the counter of that
/// outcome by one and leaves the other counters as they were; with no file
/// in progress nothing changes.
pub proof fn recording_counts_the_outcome(v: IndexerView, outcome: IndexOutcome)
    requires
        counts_consistent(v),
    ensures
        v.in_flight && outcome is Indexed ==> after_record(v, outcome).indexed == v.indexed + 1
            && after_record(v, outcome).skipped == v.skipped && after_record(v, outcome).failed
            == v.failed,
        v.in_flight && outcome is Skipped ==> after_record(v, outcome).skipped == v.skipped + 1
            && after_record(v, outcome).indexed == v.indexed && after_record(v, outcome).failed
            == v.failed,
        v.in_flight && outcome is Failed ==> after_record(v, outcome).failed == v.failed + 1
            && after_record(v, outcome).indexed == v.indexed && after_record(v, outcome).skipped
            == v.skipped,
        v.in_flight ==> !after_record(v, outcome).in_flight && after_record(v, outcome).scanned
            == v.scanned && after_record(v, outcome).remaining == v.remaining,
        !v.in_flight ==> after_record(v, outcome) == v,
{
}

/// The state after the run ended.
pub open spec fn after_finish(v: IndexerView) -> IndexerView {
    IndexerView { running: false, current_file: Seq::empty(), remaining: 0, in_flight: false, ..v }
}

/// What the indexing worker does next.
#[derive(PartialEq, Eq, Structural, Clone, Copy, Debug)]
pub enum WorkerStep {
    /// End the loop.
    Stop,
    /// Sleep a moment and ask again.
    Wait,
    /// Go on with the next file or batch.
    Proceed,
}

/// Before each file: a cancelled run, or one with no file left, stops; a
/// paused run waits; otherwise the next file is indexed.
pub open spec fn next_file_step_of(v: IndexerView) -> WorkerStep {
    if v.cancelled || v.remaining == 0 {
        WorkerStep::Stop
    } else if v.paused {
        WorkerStep::Wait
    } else {
        WorkerStep::Proceed
    }
}

/// After waiting for a file: go on waiting while paused and not cancelled;
/// then index the file the worker was waiting for, even when cancelled.
pub open spec fn file_step_after_wait_of(v: IndexerView) -> WorkerStep {
    if v.paused && !v.cancelled {
        WorkerStep::Wait
    } else {
        WorkerStep::Proceed
    }
}

/// Before each metadata batch: a paused run waits first; a cancelled one
/// stops; otherwise the batch is registered.
pub open spec fn next_batch_step_of(v: IndexerView) -> WorkerStep {
    if v.paused {
        WorkerStep::Wait
    } else if v.cancelled {
        WorkerStep::Stop
    } else {
        WorkerStep::Proceed
    }
}

/// After waiting for a batch: a cancelled run stops, a paused one goes on
/// waiting.
pub open spec fn batch_step_after_wait_of(v: IndexerView) -> WorkerStep {
    if v.cancelled {
        WorkerStep::Stop
    } else if v.paused {
        WorkerStep::Wait
    } else {
        WorkerStep::Proceed
    }
}

impl Default for ResourceIndexer {
    fn default() -> (r: Self)
        ensures
            r@ == (IndexerView {
                running: false,
                paused: false,
                cancelled: false,
                scanned: 0,
                indexed: 0,
                skipped: 0,
                failed: 0,
                current_file: Seq::empty(),
                started_at: None,
                remaining: 0,
                in_flight: false,
                catalog_failed: false,
            }),
    {
        ResourceIndexer {
            running: false,
            paused: false,
            cancelled: false,
            scanned: 0,
            indexed: 0,
            skipped: 0,
            failed: 0,
            current_file: String::new(),
            started_at: None,
            remaining: 0,
            in_flight: false,
            catalog_failed: false,
        }
    }
}

fn copy_started_at(o: &Option<String>) -> (r: Option<String>)
    ensures
        r == *o,
{
    match o {
        Some(s) => Some(s.clone()),
        None => None,
    }
}

impl ResourceIndexer {
    #[verifier::type_invariant]
    spec fn counts_hold(self) -> bool {
        counts_consistent(self@)
    }

    /// Pauses or resumes indexing.
    pub fn set_paused(&mut self, paused: bool)
        ensures
            final(self)@ == (IndexerView { paused, ..old(self)@ }),
    {
        proof {
            use_type_invariant(&*self);
        }
        self.paused = paused;
    }

    /// Asks the current run to stop.
    pub fn cancel(&mut self)
        ensures
            final(self)@ == (IndexerView { cancelled: true, ..old(self)@ }),
    {
        proof {
            use_type_invariant(&*self);
        }
        self.cancelled = true;
    }

    /// The progress shown to the user. No file is counted twice: the files
    /// indexed or skipped are at most the files found, and the failures add
    /// at most one more, for a failed metadata catalogue.
    pub fn status(&self) -> (r: crate::models::IndexStatus)
        ensures
            r.running == self@.running,
            r.paused == self@.paused,
            r.scanned == self@.scanned,
            r.indexed == self@.indexed,
            r.skipped == self@.skipped,
            r.failed == self@.failed,
            r.current_file@ == self@.current_file,
            opt_chars(r.started_at) == self@.started_at,
            r.indexed + r.skipped <= r.scanned,
            r.indexed + r.skipped + r.failed <= r.scanned + 1,
    {
        proof {
            use_type_invariant(self);
        }
        crate::models::IndexStatus {
            running: self.running,
            paused: self.paused,
            scanned: self.scanned,
            indexed: self.indexed,
            skipped: self.skipped,
            failed: self.failed,
            current_file: self.current_file.clone(),
            started_at: copy_started_at(&self.started_at),
        }
    }

    /// Starts a run at time `now` unless one is already going on: the run is
    /// marked running, neither paused nor cancelled, with its counters at 0.
    /// Returns whether a run was started; a second start changes nothing.
    pub fn begin(&mut self, now: String) -> (started: bool)
        ensures
            started == !old(self)@.running,
            final(self)@ == after_begin(old(self)@, now@),
    {
        if self.running {
            return false;
        }
        let current_file = self.current_file.clone();
        *self = ResourceIndexer {
            running: true,
            paused: false,
            cancelled: false,
            scanned: 0,
            indexed: 0,
            skipped: 0,
            failed: 0,
            current_file,
            started_at: Some(now),
            remaining: 0,
            in_flight: false,
            catalog_failed: false,
        };
        true
    }

    /// Whether the run was asked to stop.
    pub fn is_cancelled(&self) -> (r: bool)
        ensures
            r == self@.cancelled,
    {
        self.cancelled
    }

    /// Whether the run is paused.
    pub fn is_paused(&self) -> (r: bool)
        ensures
            r == self@.paused,
    {
        self.paused
    }

    /// Records that `count` supported files were found, when the run has
    /// counted nothing yet; returns whether it was taken into account.
    pub fn files_found(&mut self, count: u64) -> (taken: bool)
        ensures
            taken == (fresh_run(old(self)@) && count < u64::MAX),
            final(self)@ == after_found(old(self)@, count),
    {
        proof {
            use_type_invariant(&*self);
        }
        if !(self.indexed == 0 && self.skipped == 0 && self.failed == 0 && !self.in_flight
            && !self.catalog_failed && count < u64::MAX) {
            return false;
        }
        let mut m: Vec<char> = Vec::new();
        append_str(&mut m, "Registering metadata for ");
        append_chars(&mut m, &crate::text::decimal_text(count));
        append_str(&mut m, " files");
        self.remaining = 0;
        self.scanned = count;
        self.remaining = count;
        self.current_file = string_of(&m);
        true
    }

    /// Counts a failed metadata catalogue among the failures, once per run.
    pub fn record_catalog_failure(&mut self)
        ensures
            final(self)@ == after_catalog_failure(old(self)@),
    {
        proof {
            use_type_invariant(&*self);
        }
        if !self.catalog_failed && self.failed < u64::MAX {
            let current_file = self.current_file.clone();
            let started_at = copy_started_at(&self.started_at);
            *self = ResourceIndexer {
                running: self.running,
                paused: self.paused,
                cancelled: self.cancelled,
                scanned: self.scanned,
                indexed: self.indexed,
                skipped: self.skipped,
                failed: self.failed + 1,
                current_file,
                started_at,
                remaining: self.remaining,
                in_flight: self.in_flight,
                catalog_failed: true,
            };
        }
    }

    /// Shows batch progress when file `index` of `total` starts a batch of 200.
    pub fn metadata_progress(&mut self, index: usize, total: usize)
        ensures
            index % 200 == 0 ==> final(self)@ == (IndexerView {
                current_file: batch_message(index, total),
                ..old(self)@
            }),
            index % 200 != 0 ==> final(self)@ == old(self)@,
    {
        proof {
            use_type_invariant(&*self);
        }
        if index % METADATA_BATCH_SIZE == 0 {
            let mut m: Vec<char> = Vec::new();
            append_str(&mut m, "Registering paper metadata · ");
            append_chars(&mut m, &crate::text::decimal_text(index as u64));
            append_str(&mut m, " / ");
            append_chars(&mut m, &crate::text::decimal_text(total as u64));
            self.current_file = string_of(&m);
        }
    }

    /// What the worker does before its next file.
    pub fn next_file_step(&self) -> (r: WorkerStep)
        ensures
            r == next_file_step_of(self@),
    {
        if self.cancelled || self.remaining == 0 {
            WorkerStep::Stop
        } else if self.paused {
            WorkerStep::Wait
        } else {
            WorkerStep::Proceed
        }
    }

    /// What the worker does after waiting for its next file.
    pub fn file_step_after_wait(&self) -> (r: WorkerStep)
        ensures
            r == file_step_after_wait_of(self@),
    {
        if self.paused && !self.cancelled {
            WorkerStep::Wait
        } else {
            WorkerStep::Proceed
        }
    }

    /// What the worker does before its next metadata batch.
    pub fn next_batch_step(&self) -> (r: WorkerStep)
        ensures
            r == next_batch_step_of(self@),
    {
        if self.paused {
            WorkerStep::Wait
        } else if self.cancelled {
            WorkerStep::Stop
        } else {
            WorkerStep::Proceed
        }
    }

    /// What the worker does after waiting for its next metadata batch.
    pub fn batch_step_after_wait(&self) -> (r: WorkerStep)
        ensures
            r == batch_step_after_wait_of(self@),
    {
        if self.cancelled {
            WorkerStep::Stop
        } else if self.paused {
            WorkerStep::Wait
        } else {
            WorkerStep::Proceed
        }
    }

    /// Starts indexing `file`, shown as the current file; refused (returning
    /// false) when no found file is left or one is still in progress.
    pub fn begin_file(&mut self, file: String) -> (claimed: bool)
        ensures
            claimed == (old(self)@.remaining > 0 && !old(self)@.in_flight),
            final(self)@ == after_claim(old(self)@, file@),
    {
        proof {
            use_type_invariant(&*self);
        }
        if self.remaining > 0 && !self.in_flight {
            self.remaining = self.remaining - 1;
            self.in_flight = true;
            self.current_file = file;
            true
        } else {
            false
        }
    }

    /// Pauses the run when drive D has less than 10 GiB free (an unknown
    /// amount counts as plenty). Returns whether it paused.
    pub fn pause_if_low_on_space(&mut self, available: Option<u64>) -> (paused: bool)
        ensures
            paused == match available {
                Some(a) => a < MIN_FREE_BYTES,
                None => false,
            },
            paused ==> final(self)@ == (IndexerView { paused: true, ..old(self)@ }),
            !paused ==> final(self)@ == old(self)@,
    {
        proof {
            use_type_invariant(&*self);
        }
        let free = match available {
            Some(a) => a,
            None => u64::MAX,
        };
        if free < MIN_FREE_BYTES {
            self.paused = true;
            true
        } else {
            false
        }
    }

    /// Counts how indexing the file in progress ended.
    pub fn record(&mut self, outcome: IndexOutcome)
        ensures
            final(self)@ == after_record(old(self)@, outcome),
    {
        proof {
            use_type_invariant(&*self);
        }
        if !self.in_flight {
            return;
        }
        self.in_flight = false;
        match outcome {
            IndexOutcome::Indexed => {
                self.indexed = self.indexed + 1;
            },
            IndexOutcome::Skipped => {
                self.skipped = self.skipped + 1;
            },
            IndexOutcome::Failed => {
                self.failed = self.failed + 1;
            },
        }
    }

    /// Ends the run.
    pub fn finish(&mut self)
        ensures
            final(self)@ == after_finish(old(self)@),
    {
        proof {
            use_type_invariant(&*self);
        }
        self.remaining = 0;
        self.in_flight = false;
        self.running = false;
        self.current_file = String::new();
    }
}

/// Resuming a run that was paused from a running, unpaused state gives back
/// that state.
pub proof fn resuming_undoes_pausing(v: IndexerView)
    requires
        !v.paused,
    ensures
        (IndexerView { paused: false, ..IndexerView { paused: true, ..v } }) == v,
{
}

/// Every step of a run keeps the counts consistent: no file found is ever
/// counted twice, so the files indexed, skipped or failed never exceed the
/// files found (plus one failure for a failed catalogue).
pub proof fn every_step_keeps_counts_consistent(
    v: IndexerView,
    now: Seq<char>,
    count: u64,
    file: Seq<char>,
    outcome: IndexOutcome,
)
    requires
        counts_consistent(v),
    ensures
        counts_consistent(after_begin(v, now)),
        counts_consistent(after_found(v, count)),
        counts_consistent(after_catalog_failure(v)),
        counts_consistent(after_claim(v, file)),
        counts_consistent(after_record(v, outcome)),
        counts_consistent(after_finish(v)),
        v.indexed + v.skipped <= v.scanned,
        v.indexed + v.skipped + v.failed <= v.scanned + 1,
{
}

/// After a cancellation the worker starts no new file: the one in progress
/// is still counted, and so is the one it was waiting to start; nothing
/// after that. Recording counts at most the one file in progress.
pub proof fn cancelled_runs_start_no_further_file(
    v: IndexerView,
    file: Seq<char>,
    outcome: IndexOutcome,
)
    requires
        v.cancelled,
    ensures
        next_file_step_of(v) == WorkerStep::Stop,
        next_batch_step_of(v) != WorkerStep::Proceed,
        batch_step_after_wait_of(v) == WorkerStep::Stop,
        file_step_after_wait_of(v) == WorkerStep::Proceed,
        after_claim(v, file).cancelled && after_record(v, outcome).cancelled,
        next_file_step_of(after_claim(v, file)) == WorkerStep::Stop,
        next_file_step_of(after_record(v, outcome)) == WorkerStep::Stop,
        files_counted(after_record(v, outcome)) <= files_counted(v) + if v.in_flight {
            1int
        } else {
            0
        },
        !after_record(v, outcome).in_flight,
        !after_finish(v).running && after_finish(v).current_file.len() == 0,
{
}

/// The folders that a run indexes: the given ones, or the four default
/// library folders on drive D when none are given.
pub fn index_roots(paths: Vec<String>) -> (r: Vec<String>)
    ensures
        paths@.len() > 0 ==> r == paths,
        paths@.len() == 0 ==> crate::text::string_views(r@) == seq![
            "D:\\IB Past Papers"@,
            "D:\\IB Mark Schemes Output"@,
            "D:\\IB Calculus Output"@,
            "D:\\STUDY RESOURCES"@,
        ],
{
    if paths.len() > 0 {
        return paths;
    }
    let mut r: Vec<String> = Vec::new();
    r.push("D:\\IB Past Papers".to_owned());
    r.push("D:\\IB Mark Schemes Output".to_owned());
    r.push("D:\\IB Calculus Output".to_owned());
    r.push("D:\\STUDY RESOURCES".to_owned());
    assert(crate::text::string_views(r@) =~= seq![
        "D:\\IB Past Papers"@,
        "D:\\IB Mark Schemes Output"@,
        "D:\\IB Calculus Output"@,
        "D:\\STUDY RESOURCES"@,
    ]);
    r
}

} // verus!

verus! {

// ---------------------------------------------------------------------------
// Extraction order
// ---------------------------------------------------------------------------

/// The exam year a path hints at, 0 when it hints at none.
pub open spec fn path_year(p: Seq<char>) -> int {
    match year_hint_of(lowercase(p)) {
        Some(y) => y,
        None => 0,
    }
}

/// `a` sorts before `b` character by character, by code point (which is the
/// order of their UTF-8 bytes); a proper prefix sorts first.
pub open spec fn text_less(a: Seq<char>, b: Seq<char>) -> bool
    decreases a.len(),
{
    if a.len() == 0 {
        b.len() > 0
    } else if b.len() == 0 {
        false
    } else if a[0] != b[0] {
        a[0] < b[0]
    } else {
        text_less(a.drop_first(), b.drop_first())
    }
}

/// Component `x` sorts before component `y` by their order keys: kind first,
/// then the first text, then the second.
pub open spec fn part_less(x: (int, Seq<char>, Seq<char>), y: (int, Seq<char>, Seq<char>)) -> bool {
    x.0 < y.0 || (x.0 == y.0 && (text_less(x.1, y.1) || (x.1 == y.1 && text_less(x.2, y.2))))
}

/// `a` sorts before `b` component by component, as `Path::cmp` compares
/// Windows paths; a proper prefix sorts first.
pub open spec fn components_less(
    a: Seq<(int, Seq<char>, Seq<char>)>,
    b: Seq<(int, Seq<char>, Seq<char>)>,
) -> bool
    decreases a.len(),
{
    if a.len() == 0 {
        b.len() > 0
    } else if b.len() == 0 {
        false
    } else if a[0] != b[0] {
        part_less(a[0], b[0])
    } else {
        components_less(a.drop_first(), b.drop_first())
    }
}

/// A file with year `ya` and path component keys `ca` is extracted before one
/// with year `yb` and keys `cb`: newer years first, then paths in
/// descending order.
pub open spec fn key_before(
    ya: int,
    ca: Seq<(int, Seq<char>, Seq<char>)>,
    yb: int,
    cb: Seq<(int, Seq<char>, Seq<char>)>,
) -> bool {
    ya > yb || (ya == yb && components_less(cb, ca))
}

/// The file at path `a` is extracted before the one at path `b`.
pub open spec fn queued_before(a: Seq<char>, b: Seq<char>) -> bool {
    key_before(path_year(a), path_keys(a), path_year(b), path_keys(b))
}

/// No file stands after one that is to be extracted after it.
pub open spec fn newest_first(s: Seq<String>) -> bool {
    forall|i: int, j: int| #![trigger s[i], s[j]] 0 <= i < j < s.len() ==> !queued_before(s[j]@, s[i]@)
}

/// `after` holds the items of `before` rearranged by `perm`: item `m` of
/// `after` is item `perm[m]` of `before`, every item is used once, and two
/// items of which neither is to be extracted before the other keep the order
/// they had.
pub open spec fn stable_rearrangement(before: Seq<String>, after: Seq<String>, perm: Seq<int>) -> bool {
    &&& perm.len() == after.len()
    &&& after.len() == before.len()
    &&& forall|m: int|
        0 <= m < after.len() ==> 0 <= #[trigger] perm[m] < before.len() && after[m] == before[perm[m]]
    &&& forall|m: int, l: int| #![trigger perm[m], perm[l]] 0 <= m < l < after.len() ==> perm[m] != perm[l]
    &&& forall|m: int, l: int|
        #![trigger perm[m], perm[l]]
        0 <= m < l < after.len() && !queued_before(after[m]@, after[l]@) ==> perm[m] < perm[l]
}

proof fn lemma_text_less_irreflexive(a: Seq<char>)
    ensures
        !text_less(a, a),
    decreases a.len(),
{
    if a.len() > 0 {
        lemma_text_less_irreflexive(a.drop_first());
    }
}

proof fn lemma_text_less_transitive(a: Seq<char>, b: Seq<char>, c: Seq<char>)
    requires
        text_less(a, b),
        text_less(b, c),
    ensures
        text_less(a, c),
    decreases a.len(),
{
    if a.len() > 0 && b.len() > 0 && c.len() > 0 && a[0] == b[0] && b[0] == c[0] {
        lemma_text_less_transitive(a.drop_first(), b.drop_first(), c.drop_first());
    }
}

proof fn lemma_text_less_total(a: Seq<char>, b: Seq<char>)
    requires
        a != b,
    ensures
        text_less(a, b) || text_less(b, a),
    decreases a.len(),
{
    if a.len() == 0 && b.len() == 0 {
        assert(a =~= b);
    } else if a.len() > 0 && b.len() > 0 && a[0] == b[0] {
        if a.drop_first() =~= b.drop_first() {
            assert forall|i: int| 0 <= i < a.len() implies a[i] == b[i] by {
                if i > 0 {
                    assert(a[i] == a.drop_first()[i - 1] && b[i] == b.drop_first()[i - 1]);
                }
            }
            assert(a =~= b);
        } else {
            lemma_text_less_total(a.drop_first(), b.drop_first());
        }

    }
}

proof fn lemma_part_less_irreflexive(x: (int, Seq<char>, Seq<char>))
    ensures
        !part_less(x, x),
{
    lemma_text_less_irreflexive(x.1);
    lemma_text_less_irreflexive(x.2);
}

proof fn lemma_part_less_transitive(
    x: (int, Seq<char>, Seq<char>),
    y: (int, Seq<char>, Seq<char>),
    z: (int, Seq<char>, Seq<char>),
)
    requires
        part_less(x, y),
        part_less(y, z),
    ensures
        part_less(x, z),
{
    if text_less(x.1, y.1) && text_less(y.1, z.1) {
        lemma_text_less_transitive(x.1, y.1, z.1);
    }
    if text_less(x.2, y.2) && text_less(y.2, z.2) {
        lemma_text_less_transitive(x.2, y.2, z.2);
    }
}

proof fn lemma_part_less_total(x: (int, Seq<char>, Seq<char>), y: (int, Seq<char>, Seq<char>))
    requires
        x != y,
    ensures
        part_less(x, y) || part_less(y, x),
{
    if x.0 == y.0 {
        if x.1 != y.1 {
            lemma_text_less_total(x.1, y.1);
        } else {
            lemma_text_less_total(x.2, y.2);
        }
    }
}

proof fn lemma_components_less_irreflexive(a: Seq<(int, Seq<char>, Seq<char>)>)
    ensures
        !components_less(a, a),
    decreases a.len(),
{
    if a.len() > 0 {
        lemma_components_less_irreflexive(a.drop_first());
    }
}

proof fn lemma_components_less_transitive(
    a: Seq<(int, Seq<char>, Seq<char>)>,
    b: Seq<(int, Seq<char>, Seq<char>)>,
    c: Seq<(int, Seq<char>, Seq<char>)>,
)
    requires
        components_less(a, b),
        components_less(b, c),
    ensures
        components_less(a, c),
    decreases a.len(),
{
    if a.len() > 0 && b.len() > 0 && c.len() > 0 {
        if a[0] == b[0] && b[0] == c[0] {
            lemma_components_less_transitive(a.drop_first(), b.drop_first(), c.drop_first());
        } else if a[0] != b[0] && b[0] != c[0] {
            lemma_part_less_transitive(a[0], b[0], c[0]);
            if a[0] == c[0] {
                lemma_part_less_irreflexive(a[0]);
            }
        }
    }
}

proof fn lemma_components_less_total(
    a: Seq<(int, Seq<char>, Seq<char>)>,
    b: Seq<(int, Seq<char>, Seq<char>)>,
)
    requires
        a != b,
    ensures
        components_less(a, b) || components_less(b, a),
    decreases a.len(),
{
    if a.len() == 0 && b.len() == 0 {
        assert(a =~= b);
    } else if a.len() > 0 && b.len() > 0 {
        if a[0] == b[0] {
            if a.drop_first() =~= b.drop_first() {
                assert forall|i: int| 0 <= i < a.len() implies a[i] == b[i] by {
                    if i > 0 {
                        assert(a[i] == a.drop_first()[i - 1] && b[i] == b.drop_first()[i - 1]);
                    }
                }
                assert(a =~= b);
            } else {
                lemma_components_less_total(a.drop_first(), b.drop_first());
            }
        } else {
            lemma_part_less_total(a[0], b[0]);
        }
    }
}

/// Of two files, at most one is to be extracted before the other.
pub proof fn queued_before_is_asymmetric(a: Seq<char>, b: Seq<char>)
    requires
        queued_before(a, b),
    ensures
        !queued_before(b, a),
{
    if path_year(a) == path_year(b) && components_less(path_keys(b), path_keys(a))
        && components_less(path_keys(a), path_keys(b)) {
        lemma_components_less_transitive(path_keys(a), path_keys(b), path_keys(a));
        lemma_components_less_irreflexive(path_keys(a));
    }
}

/// "Not to be extracted before" is transitive, so the extraction order is a
/// consistent ranking of all paths.
pub proof fn not_queued_before_is_transitive(x: Seq<char>, y: Seq<char>, z: Seq<char>)
    requires
        !queued_before(x, y),
        !queued_before(y, z),
    ensures
        !queued_before(x, z),
{
    let (cx, cy, cz) = (path_keys(x), path_keys(y), path_keys(z));
    if path_year(x) == path_year(z) && components_less(cz, cx) {
        if cy == cx {
        } else {
            lemma_components_less_total(cx, cy);
            if components_less(cx, cy) {
                lemma_components_less_transitive(cz, cx, cy);
            }
        }
    }
}

proof fn lemma_insert_to_multiset<A>(s: Seq<A>, k: int, a: A)
    requires
        0 <= k <= s.len(),
    ensures
        s.insert(k, a).to_multiset() =~= s.to_multiset().insert(a),
{
    broadcast use vstd::seq_lib::group_to_multiset_ensures;

    let t = s.insert(k, a);
    t.to_multiset_ensures();
    assert(t.remove(k) =~= s);
    assert(t[k] == a);
    assert(t.contains(a));
}

proof fn lemma_insert_keeps_newest_first(s: Seq<String>, k: int, x: String)
    requires
        newest_first(s),
        0 <= k <= s.len(),
        forall|j: int| k <= j < s.len() ==> queued_before(x@, #[trigger] s[j]@),
        k > 0 ==> !queued_before(x@, s[k - 1]@),
    ensures
        newest_first(s.insert(k, x)),
{
    let t = s.insert(k, x);
    assert forall|i: int, j: int| 0 <= i < j < t.len() implies !queued_before(
        #[trigger] t[j]@,
        #[trigger] t[i]@,
    ) by {
        if j < k {
            assert(t[i] == s[i] && t[j] == s[j]);
        } else if j == k {
            assert(t[i] == s[i] && t[j] == x);
            if i < k - 1 {
                assert(!queued_before(s[k - 1]@, s[i]@));
                not_queued_before_is_transitive(x@, s[k - 1]@, s[i]@);
            }
        } else if i == k {
            assert(t[i] == x && t[j] == s[j - 1]);
            queued_before_is_asymmetric(x@, s[j - 1]@);
        } else if i < k {
            assert(t[i] == s[i] && t[j] == s[j - 1]);
        } else {
            assert(t[i] == s[i - 1] && t[j] == s[j - 1]);
        }
    }
}

proof fn lemma_insert_keeps_stable(before: Seq<String>, out: Seq<String>, perm: Seq<int>, k: int, x: String)
    requires
        stable_rearrangement(before, out, perm),
        0 <= k <= out.len(),
        forall|j: int| k <= j < out.len() ==> queued_before(x@, #[trigger] out[j]@),
    ensures
        stable_rearrangement(before.push(x), out.insert(k, x), perm.insert(k, before.len() as int)),
{
    let b = before.push(x);
    let t = out.insert(k, x);
    let q = perm.insert(k, before.len() as int);
    assert forall|m: int| 0 <= m < t.len() implies 0 <= #[trigger] q[m] < b.len() && t[m] == b[q[m]] by {
        if m < k {
            assert(q[m] == perm[m] && t[m] == out[m]);
        } else if m > k {
            assert(q[m] == perm[m - 1] && t[m] == out[m - 1]);
        }
    }
    assert forall|m: int, l: int| #![trigger q[m], q[l]] 0 <= m < l < t.len() implies q[m] != q[l]
        && (!queued_before(t[m]@, t[l]@) ==> q[m] < q[l]) by {
        if l < k {
            assert(q[m] == perm[m] && q[l] == perm[l] && t[m] == out[m] && t[l] == out[l]);
        } else if l == k {
            assert(q[m] == perm[m]);
        } else if m == k {
            assert(t[l] == out[l - 1] && t[m] == x);
            assert(queued_before(x@, out[l - 1]@));
            assert(q[l] == perm[l - 1]);
        } else if m < k {
            assert(q[m] == perm[m] && q[l] == perm[l - 1] && t[m] == out[m] && t[l] == out[l - 1]);
        } else {
            assert(q[m] == perm[m - 1] && q[l] == perm[l - 1] && t[m] == out[m - 1] && t[l] == out[l
                - 1]);
        }
    }
}

proof fn lemma_first_year_range(pieces: Seq<Seq<char>>)
    ensures
        first_year(pieces) matches Some(y) ==> 2000 <= y <= 2100,
    decreases pieces.len(),
{
    if pieces.len() > 0 {
        lemma_first_year_range(pieces.drop_first());
    }
}

/// The exam year a path hints at, 0 when none.
fn path_year_of(path: &str) -> (r: i64)
    ensures
        r == path_year(path@),
{
    proof {
        lemma_first_year_range(split_by(lowercase(path@), Separator::NotAsciiDigit));
    }
    match infer_metadata(path).1 {
        Some(y) => y,
        None => 0,
    }
}

fn text_less_exec(a: &Vec<char>, b: &Vec<char>) -> (r: bool)
    ensures
        r == text_less(a@, b@),
{
    let mut i: usize = 0;
    assert(a@.skip(0) =~= a@ && b@.skip(0) =~= b@);
    while i < a.len() && i < b.len()
        invariant
            i <= a.len(),
            i <= b.len(),
            text_less(a@, b@) == text_less(a@.skip(i as int), b@.skip(i as int)),
        decreases a.len() - i,
    {
        assert(a@.skip(i as int)[0] == a@[i as int] && b@.skip(i as int)[0] == b@[i as int]);
        if a[i] != b[i] {
            return a[i] < b[i];
        }
        assert(a@.skip(i as int).drop_first() =~= a@.skip(i + 1));
        assert(b@.skip(i as int).drop_first() =~= b@.skip(i + 1));
        i += 1;
    }
    i == a.len() && i < b.len()
}

fn part_less_exec(x: &PathPart, y: &PathPart) -> (r: bool)
    ensures
        r == part_less(part_view(*x), part_view(*y)),
{
    if x.kind != y.kind {
        return x.kind < y.kind;
    }
    if !chars_equal(&x.first, &y.first) {
        return text_less_exec(&x.first, &y.first);
    }
    proof {
        lemma_text_less_irreflexive(x.first@);
    }
    text_less_exec(&x.second, &y.second)
}

fn parts_equal(x: &PathPart, y: &PathPart) -> (r: bool)
    ensures
        r == (part_view(*x) == part_view(*y)),
{
    x.kind == y.kind && chars_equal(&x.first, &y.first) && chars_equal(&x.second, &y.second)
}

fn components_less_exec(a: &Vec<PathPart>, b: &Vec<PathPart>) -> (r: bool)
    ensures
        r == components_less(parts_view(a@), parts_view(b@)),
{
    let ghost va = parts_view(a@);
    let ghost vb = parts_view(b@);
    let mut i: usize = 0;
    assert(va.skip(0) =~= va && vb.skip(0) =~= vb);
    while i < a.len() && i < b.len()
        invariant
            va == parts_view(a@),
            vb == parts_view(b@),
            i <= a.len(),
            i <= b.len(),
            components_less(va, vb) == components_less(va.skip(i as int), vb.skip(i as int)),
        decreases a.len() - i,
    {
        assert(va.skip(i as int)[0] == part_view(a@[i as int]) && vb.skip(i as int)[0] == part_view(
            b@[i as int],
        ));
        if !parts_equal(&a[i], &b[i]) {
            return part_less_exec(&a[i], &b[i]);
        }
        assert(va.skip(i as int).drop_first() =~= va.skip(i + 1));
        assert(vb.skip(i as int).drop_first() =~= vb.skip(i + 1));
        i += 1;
    }
    i == a.len() && i < b.len()
}

/// Sorts the files to extract: the newest exam sessions first (by the year
/// their path hints at, files without one last), and files of the same year
/// by their paths in descending order. The result holds the same paths.
pub fn sort_newest_first(files: &mut Vec<String>)
    ensures
        final(files)@.to_multiset() == old(files)@.to_multiset(),
        newest_first(final(files)@),
        exists|perm: Seq<int>| stable_rearrangement(old(files)@, final(files)@, perm),
{
    broadcast use vstd::seq_lib::group_to_multiset_ensures;

    let ghost given = files@;
    let mut out: Vec<String> = Vec::new();
    let mut years: Vec<i64> = Vec::new();
    let mut comps: Vec<Vec<PathPart>> = Vec::new();
    let ghost mut perm: Seq<int> = Seq::empty();
    let n = files.len();
    assert(given.take(0) =~= Seq::<String>::empty());
    for i in 0..n
        invariant
            n == given.len(),
            files@ == given,
            out.len() == i,
            years.len() == i,
            comps.len() == i,
            forall|m: int|
                0 <= m < i ==> years@[m] == path_year(#[trigger] out@[m]@) && parts_view(comps@[m]@) == path_keys(out@[m]@),
            newest_first(out@),
            out@.to_multiset() == given.take(i as int).to_multiset(),
            stable_rearrangement(given.take(i as int), out@, perm),
    {
        let p = files[i].clone();
        let year = path_year_of(p.as_str());
        let cs = path_parts(&chars_of(p.as_str()));
        let mut k = out.len();
        while k > 0 && (year > years[k - 1] || (year == years[k - 1] && components_less_exec(
            &comps[k - 1],
            &cs,
        )))
            invariant
                k <= out.len(),
                out.len() == years.len(),
                out.len() == comps.len(),
                year == path_year(p@),
                parts_view(cs@) == path_keys(p@),
                forall|m: int|
                    0 <= m < out.len() ==> years@[m] == path_year(#[trigger] out@[m]@) && parts_view(comps@[m]@) == path_keys(out@[m]@),
                forall|j: int| k <= j < out.len() ==> queued_before(p@, #[trigger] out@[j]@),
            decreases k,
        {
            k -= 1;
        }
        proof {
            if k > 0 {
                assert(years@[k - 1] == path_year(out@[k - 1]@));
            }
            lemma_insert_keeps_newest_first(out@, k as int, p);
            lemma_insert_to_multiset(out@, k as int, p);
            lemma_insert_keeps_stable(given.take(i as int), out@, perm, k as int, p);
            assert(given.take(i + 1) =~= given.take(i as int).push(p));
            perm = perm.insert(k as int, i as int);
            given.take(i as int).to_multiset_ensures();
        }
        let ghost (out0, years0, comps0) = (out@, years@, comps@);
        out.insert(k, p);
        years.insert(k, year);
        comps.insert(k, cs);
        assert(out@ == out0.insert(k as int, p));
        assert forall|m: int| 0 <= m < i + 1 implies years@[m] == path_year(
            #[trigger] out@[m]@,
        ) && parts_view(comps@[m]@) == path_keys(out@[m]@) by {
            if m < k {
                assert(out@[m] == out0[m] && years@[m] == years0[m] && comps@[m] == comps0[m]);
            } else if m > k {
                assert(out@[m] == out0[m - 1] && years@[m] == years0[m - 1] && comps@[m]
                    == comps0[m - 1]);
            }
        }
    }
    assert(given.take(n as int) =~= given);
    assert(stable_rearrangement(given, out@, perm));
    *files = out;
}

} // verus!
