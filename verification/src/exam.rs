//! Exam lab: choosing papers and mark schemes, reading answer keys, grading.
use vstd::prelude::*;
use vstd::set_lib::lemma_set_intersect_union_lens;
use std::collections::BTreeMap;
use crate::encoding::{base64_len, base64_standard, encode_base64_standard};
use crate::models::{ExamLibrary, ExamMarkSchemeCandidate, ExamPaperCandidate, ExamPdfPayload};
use crate::path_safety::{is_canonical_drive_d, on_drive_d};
use crate::text::{
    append_chars, string_of, trim_chars, trim_text, chars_equal_str, chars_of, contains_chars, contains_chars_item, parse_i64, parse_i64_text,
    text_equals, to_lowercase, to_uppercase, uppercase, contains_str, contains_text, ends_with_str, occurs_at,
    ends_with_text, lemma_split_by_total_len, lowercase, lowercase_chars, replace_char, replace_chars, split_by, split_chars,
    starts_with_str, starts_with_text, string_views, strings_of, total_len, lemma_total_len_push, utf8_len, utf8_len_at_least, views,
    Separator,
};

verus! {

/// A PDF of the resource library as the exam lab sees it.
pub struct DocumentRow {
    pub id: String,
    pub title: String,
    pub path: String,
    pub subject_hint: Option<String>,
    pub year_hint: Option<i64>,
}

// ---------------------------------------------------------------------------
// Mark schemes and modes
// ---------------------------------------------------------------------------

/// A lower-cased path names a mark scheme.
pub open spec fn mark_scheme_path(lower: Seq<char>) -> bool {
    let p = replace_char(lower, '\\', '/');
    ||| contains_text(p, "mark scheme"@)
    ||| contains_text(p, "markscheme"@)
    ||| contains_text(p, "mark_scheme"@)
    ||| contains_text(p, "/ms/"@)
    ||| contains_text(p, "_ms."@)
    ||| contains_text(p, "-ms."@)
    ||| ends_with_text(p, " ms.pdf"@)
}

/// Whether an already lower-cased path names a mark scheme.
pub fn mark_scheme_in_lowercased(lower: &Vec<char>) -> (r: bool)
    ensures
        r == mark_scheme_path(lower@),
{
    let p = replace_chars(lower, '\\', '/');
    contains_str(&p, "mark scheme") || contains_str(&p, "markscheme") || contains_str(
        &p,
        "mark_scheme",
    ) || contains_str(&p, "/ms/") || contains_str(&p, "_ms.") || contains_str(&p, "-ms.")
        || ends_with_str(&p, " ms.pdf")
}

/// Whether a document path names a mark scheme rather than a question paper.
pub fn is_mark_scheme(path: &str) -> (r: bool)
    ensures
        r == mark_scheme_path(lowercase(path@)),
{
    let lower = lowercase_chars(path);
    mark_scheme_in_lowercased(&lower)
}

/// Turning `\` into `/` keeps every occurrence, with its own `\` turned too.
proof fn lemma_occurrence_survives_slashes(s: Seq<char>, w: Seq<char>)
    requires
        contains_text(s, w),
    ensures
        contains_text(replace_char(s, '\\', '/'), replace_char(w, '\\', '/')),
{
    let i = choose|i: int| #[trigger] occurs_at(s, w, i);
    let p = replace_char(s, '\\', '/');
    let q = replace_char(w, '\\', '/');
    assert forall|k: int| 0 <= k < q.len() implies p.subrange(i, i + w.len())[k] == q[k] by {
        assert(s.subrange(i, i + w.len())[k] == s[i + k]);
    }
    assert(p.subrange(i, i + w.len()) =~= q);
    assert(occurs_at(p, q, i));
}

/// Turning `\` into `/` keeps an ending, with its own `\` turned too.
proof fn lemma_suffix_survives_slashes(s: Seq<char>, w: Seq<char>)
    requires
        ends_with_text(s, w),
    ensures
        ends_with_text(replace_char(s, '\\', '/'), replace_char(w, '\\', '/')),
{
    let p = replace_char(s, '\\', '/');
    let q = replace_char(w, '\\', '/');
    assert forall|k: int| 0 <= k < q.len() implies q[k] == p[p.len() - q.len() + k] by {
        assert(w[k] == s[s.len() - w.len() + k]);
    }
}

/// A text without `\` is kept as it is when `\` is turned into `/`.
proof fn lemma_no_backslash_unchanged(w: Seq<char>)
    requires
        forall|k: int| 0 <= k < w.len() ==> w[k] != '\\',
    ensures
        replace_char(w, '\\', '/') == w,
{
    assert(replace_char(w, '\\', '/') =~= w);
}

/// A path names a mark scheme whenever its lower-cased text holds
/// "mark scheme", "markscheme" or "mark_scheme", a folder named "ms" (between
/// `/` or `\`), "_ms." or "-ms.", or ends with " ms.pdf". A path written with
/// `/` only names a mark scheme only in those cases.
pub proof fn mark_scheme_names_are_recognised(lower: Seq<char>)
    ensures
        contains_text(lower, "mark scheme"@) ==> mark_scheme_path(lower),
        contains_text(lower, "markscheme"@) ==> mark_scheme_path(lower),
        contains_text(lower, "mark_scheme"@) ==> mark_scheme_path(lower),
        contains_text(lower, "/ms/"@) ==> mark_scheme_path(lower),
        contains_text(lower, "\\ms\\"@) ==> mark_scheme_path(lower),
        contains_text(lower, "_ms."@) ==> mark_scheme_path(lower),
        contains_text(lower, "-ms."@) ==> mark_scheme_path(lower),
        ends_with_text(lower, " ms.pdf"@) ==> mark_scheme_path(lower),
        (forall|k: int| 0 <= k < lower.len() ==> lower[k] != '\\') && mark_scheme_path(lower) ==> {
            ||| contains_text(lower, "mark scheme"@)
            ||| contains_text(lower, "markscheme"@)
            ||| contains_text(lower, "mark_scheme"@)
            ||| contains_text(lower, "/ms/"@)
            ||| contains_text(lower, "_ms."@)
            ||| contains_text(lower, "-ms."@)
            ||| ends_with_text(lower, " ms.pdf"@)
        },
{
    reveal_strlit("mark scheme");
    reveal_strlit("markscheme");
    reveal_strlit("mark_scheme");
    reveal_strlit("/ms/");
    reveal_strlit("\\ms\\");
    reveal_strlit("_ms.");
    reveal_strlit("-ms.");
    reveal_strlit(" ms.pdf");
    lemma_no_backslash_unchanged("mark scheme"@);
    lemma_no_backslash_unchanged("markscheme"@);
    lemma_no_backslash_unchanged("mark_scheme"@);
    lemma_no_backslash_unchanged("/ms/"@);
    lemma_no_backslash_unchanged("_ms."@);
    lemma_no_backslash_unchanged("-ms."@);
    lemma_no_backslash_unchanged(" ms.pdf"@);
    assert(replace_char("\\ms\\"@, '\\', '/') =~= "/ms/"@);
    if contains_text(lower, "mark scheme"@) {
        lemma_occurrence_survives_slashes(lower, "mark scheme"@);
    }
    if contains_text(lower, "markscheme"@) {
        lemma_occurrence_survives_slashes(lower, "markscheme"@);
    }
    if contains_text(lower, "mark_scheme"@) {
        lemma_occurrence_survives_slashes(lower, "mark_scheme"@);
    }
    if contains_text(lower, "/ms/"@) {
        lemma_occurrence_survives_slashes(lower, "/ms/"@);
    }
    if contains_text(lower, "\\ms\\"@) {
        lemma_occurrence_survives_slashes(lower, "\\ms\\"@);
    }
    if contains_text(lower, "_ms."@) {
        lemma_occurrence_survives_slashes(lower, "_ms."@);
    }
    if contains_text(lower, "-ms."@) {
        lemma_occurrence_survives_slashes(lower, "-ms."@);
    }
    if ends_with_text(lower, " ms.pdf"@) {
        lemma_suffix_survives_slashes(lower, " ms.pdf"@);
    }
    if forall|k: int| 0 <= k < lower.len() ==> lower[k] != '\\' {
        lemma_no_backslash_unchanged(lower);
    }
}

/// A lower-cased path names a multiple-choice paper.
pub open spec fn multiple_choice_path(lower: Seq<char>) -> bool {
    ||| contains_text(lower, "multiple choice"@)
    ||| contains_text(lower, "multiple_choice"@)
    ||| contains_text(lower, "mcq"@)
    ||| contains_text(lower, "paper 1a"@)
    ||| contains_text(lower, "paper_1a"@)
    ||| contains_text(lower, "p1a"@)
}

/// The exam mode ("mcq" or "theory") suggested for a lower-cased path.
pub open spec fn mode_for(lower: Seq<char>) -> Seq<char> {
    if multiple_choice_path(lower) {
        "mcq"@
    } else {
        "theory"@
    }
}

/// The mode suggested for an already lower-cased path.
pub fn mode_for_lowercased(lower: &Vec<char>) -> (r: String)
    ensures
        r@ == mode_for(lower@),
{
    let mcq = contains_str(lower, "multiple choice") || contains_str(lower, "multiple_choice")
        || contains_str(lower, "mcq") || contains_str(lower, "paper 1a") || contains_str(
        lower,
        "paper_1a",
    ) || contains_str(lower, "p1a");
    if mcq {
        "mcq".to_owned()
    } else {
        "theory".to_owned()
    }
}

/// The mode in which a paper is most likely sat: "mcq" for multiple-choice
/// papers, "theory" otherwise.
pub fn detect_mode(path: &str) -> (r: String)
    ensures
        r@ == mode_for(lowercase(path@)),
{
    let lower = lowercase_chars(path);
    mode_for_lowercased(&lower)
}

// ---------------------------------------------------------------------------
// Subject filter
// ---------------------------------------------------------------------------

/// A title with underscores and hyphens read as spaces.
pub open spec fn spaced_title(title: Seq<char>) -> Seq<char> {
    replace_char(replace_char(title, '_', ' '), '-', ' ')
}

/// The words of a subject name that the generic filter requires: its
/// white-space separated words of at least four bytes.
pub open spec fn long_word(t: Seq<char>) -> bool {
    utf8_len(t) >= 4
}

pub open spec fn long_word_pred() -> spec_fn(Seq<char>) -> bool {
    |t: Seq<char>| long_word(t)
}

pub open spec fn long_words(subject: Seq<char>) -> Seq<Seq<char>> {
    split_by(subject, Separator::WhiteSpace).filter(long_word_pred())
}

/// A document title (lower-cased) belongs to a subject (lower-cased).
pub open spec fn subject_matches(subject: Seq<char>, title_lower: Seq<char>) -> bool {
    let title = spaced_title(title_lower);
    if contains_text(subject, "math"@) {
        contains_text(title, "math"@)
    } else if contains_text(subject, "business"@) {
        contains_text(title, "business"@) || contains_text(title, "management"@)
    } else if contains_text(subject, "computer science"@) {
        contains_text(title, "computer science"@) || contains_text(title, "computing"@)
    } else if contains_text(subject, "english"@) {
        contains_text(title, "english a"@) || contains_text(title, "english language"@)
            || contains_text(title, "english literature"@)
    } else if contains_text(subject, "physics"@) {
        contains_text(title, "physics"@)
    } else if contains_text(subject, "french"@) {
        contains_text(title, "french b"@) || starts_with_text(title, "french b "@)
            || contains_text(title, "french ab initio"@)
    } else {
        let words = long_words(subject);
        words.len() > 0 && all_occur_in(title, words)
    }
}

/// Every text of `words` occurs in `title`.
pub open spec fn all_occur_in(title: Seq<char>, words: Seq<Seq<char>>) -> bool {
    forall|k: int| 0 <= k < words.len() ==> contains_text(title, #[trigger] words[k])
}

proof fn lemma_all_occur_in_push(title: Seq<char>, words: Seq<Seq<char>>, w: Seq<char>)
    ensures
        all_occur_in(title, words.push(w)) == (all_occur_in(title, words) && contains_text(
            title,
            w,
        )),
{
    let next = words.push(w);
    if all_occur_in(title, words) && contains_text(title, w) {
        assert forall|k: int| 0 <= k < next.len() implies contains_text(title, #[trigger] next[k]) by {
            if k < words.len() {
                assert(next[k] == words[k]);
            }
        }
    }
    if !all_occur_in(title, words) {
        let k = choose|k: int| 0 <= k < words.len() && !contains_text(title, #[trigger] words[k]);
        assert(next[k] == words[k]);
    }
    if !contains_text(title, w) {
        assert(next[words.len() as int] == w);
    }
}

fn all_long_words_in(words: &Vec<Vec<char>>, title: &Vec<char>) -> (r: bool)
    ensures
        r == (long_words_of(views(words@)).len() > 0 && all_occur_in(
            title@,
            long_words_of(views(words@)),
        )),
{
    let mut any = false;
    let mut all = true;
    proof {
        reveal(Seq::filter);
        assert(views(words@.take(0)) =~= Seq::<Seq<char>>::empty());
    }
    for i in 0..words.len()
        invariant
            any == (long_words_of(views(words@.take(i as int))).len() > 0),
            all == all_occur_in(title@, long_words_of(views(words@.take(i as int)))),
    {
        let ghost before = views(words@.take(i as int));
        let ghost kept = long_words_of(before);
        assert(views(words@.take(i + 1)) == before.push(words@[i as int]@));
        proof {
            before.lemma_filter_push(words@[i as int]@, long_word_pred());
        }
        if utf8_len_at_least(&words[i], 4) {
            any = true;
            let found = contains_chars(title, &words[i]);
            proof {
                lemma_all_occur_in_push(title@, kept, words@[i as int]@);
            }
            all = all && found;
        }
    }
    assert(words@.take(words.len() as int) == words@);
    all && any
}

pub open spec fn long_words_of(pieces: Seq<Seq<char>>) -> Seq<Seq<char>> {
    pieces.filter(long_word_pred())
}

/// Whether a lower-cased title belongs to a lower-cased subject name.
pub fn subject_matches_lowercased(subject: &Vec<char>, title_lower: &Vec<char>) -> (r: bool)
    ensures
        r == subject_matches(subject@, title_lower@),
{
    let t1 = replace_chars(title_lower, '_', ' ');
    let title = replace_chars(&t1, '-', ' ');
    if contains_str(subject, "math") {
        return contains_str(&title, "math");
    }
    if contains_str(subject, "business") {
        return contains_str(&title, "business") || contains_str(&title, "management");
    }
    if contains_str(subject, "computer science") {
        return contains_str(&title, "computer science") || contains_str(&title, "computing");
    }
    if contains_str(subject, "english") {
        return contains_str(&title, "english a") || contains_str(&title, "english language")
            || contains_str(&title, "english literature");
    }
    if contains_str(subject, "physics") {
        return contains_str(&title, "physics");
    }
    if contains_str(subject, "french") {
        return contains_str(&title, "french b") || starts_with_str(&title, "french b ")
            || contains_str(&title, "french ab initio");
    }
    let words = split_chars(subject, &Separator::WhiteSpace);
    all_long_words_in(&words, &title)
}

/// Whether a library document belongs to the named subject, judged by its
/// title so that broad archive folders do not pull in other subjects.
pub fn matches_subject_document(subject_name: &str, document: &DocumentRow) -> (r: bool)
    ensures
        r == subject_matches(lowercase(subject_name@), lowercase(document.title@)),
{
    let subject = lowercase_chars(subject_name);
    let title = lowercase_chars(document.title.as_str());
    subject_matches_lowercased(&subject, &title)
}

} // verus!

verus! {

// ---------------------------------------------------------------------------
// Pairing papers with mark schemes
// ---------------------------------------------------------------------------

/// Words of a path that say nothing about which exam it belongs to.
pub open spec fn ignored_token(t: Seq<char>) -> bool {
    ||| t == "pdf"@
    ||| t == "mark"@
    ||| t == "scheme"@
    ||| t == "markscheme"@
    ||| t == "ms"@
    ||| t == "question"@
    ||| t == "questions"@
    ||| t == "paper"@
    ||| t == "papers"@
    ||| t == "qp"@
    ||| t == "answer"@
    ||| t == "answers"@
}

/// A piece of a path that identifies its exam: more than one character (the
/// pieces are ASCII, so characters and bytes agree) and not an ignored word.
pub open spec fn identity_token(t: Seq<char>) -> bool {
    t.len() > 1 && !ignored_token(t)
}

pub open spec fn identity_token_pred() -> spec_fn(Seq<char>) -> bool {
    |t: Seq<char>| identity_token(t)
}

/// The identity tokens of a lower-cased path: its maximal runs of ASCII
/// letters and digits that are identity tokens.
pub open spec fn identity_token_set(lower: Seq<char>) -> Set<Seq<char>> {
    split_by(lower, Separator::NotAsciiAlphanumeric).filter(identity_token_pred()).to_set()
}

fn is_ignored_token(t: &Vec<char>) -> (r: bool)
    ensures
        r == ignored_token(t@),
{
    chars_equal_str(t, "pdf") || chars_equal_str(t, "mark") || chars_equal_str(t, "scheme")
        || chars_equal_str(t, "markscheme") || chars_equal_str(t, "ms") || chars_equal_str(
        t,
        "question",
    ) || chars_equal_str(t, "questions") || chars_equal_str(t, "paper") || chars_equal_str(
        t,
        "papers",
    ) || chars_equal_str(t, "qp") || chars_equal_str(t, "answer") || chars_equal_str(
        t,
        "answers",
    )
}

/// The distinct identity tokens of an already lower-cased path.
pub fn identity_tokens_of_lowercased(lower: &Vec<char>) -> (r: Vec<Vec<char>>)
    ensures
        views(r@).no_duplicates(),
        views(r@).to_set() == identity_token_set(lower@),
        2 * r@.len() <= lower@.len(),
{
    let pieces = split_chars(lower, &Separator::NotAsciiAlphanumeric);
    let mut r: Vec<Vec<char>> = Vec::new();
    proof {
        lemma_split_by_total_len(lower@, Separator::NotAsciiAlphanumeric);
        reveal(Seq::filter);
        assert(views(pieces@.take(0)) =~= Seq::<Seq<char>>::empty());
        assert(views(r@) =~= Seq::<Seq<char>>::empty());
    }
    for i in 0..pieces.len()
        invariant
            views(r@).no_duplicates(),
            views(r@).to_set() == views(pieces@.take(i as int)).filter(
                identity_token_pred(),
            ).to_set(),
            2 * r@.len() <= total_len(views(pieces@.take(i as int))),
            views(pieces@) == split_by(lower@, Separator::NotAsciiAlphanumeric),
            total_len(views(pieces@)) <= lower@.len(),
    {
        let ghost before = views(pieces@.take(i as int));
        let ghost piece = pieces@[i as int]@;
        assert(views(pieces@.take(i + 1)) == before.push(piece));
        proof {
            lemma_total_len_push(before, piece);
            before.lemma_filter_push(piece, identity_token_pred());
            before.filter(identity_token_pred()).lemma_push_to_set_commute(piece);
        }
        let t = &pieces[i];
        if t.len() > 1 && !is_ignored_token(t) {
            if !contains_chars_item(&r, t) {
                let ghost old_r = views(r@);
                r.push(t.clone());
                proof {
                    assert(views(r@) =~= old_r.push(piece));
                    old_r.lemma_push_to_set_commute(piece);
                }
            } else {
                assert(views(r@).to_set().insert(piece) =~= views(r@).to_set());
            }
        }
    }
    assert(pieces@.take(pieces.len() as int) == pieces@);
    r
}

/// The distinct identity tokens of a document path (lower-cased, split at
/// every character that is not an ASCII letter or digit).
pub fn identity_tokens(path: &str) -> (r: Vec<String>)
    ensures
        string_views(r@).no_duplicates(),
        string_views(r@).to_set() == identity_token_set(lowercase(path@)),
{
    let lower = lowercase_chars(path);
    let t = identity_tokens_of_lowercased(&lower);
    strings_of(&t)
}

/// How well a paper and a mark scheme match: the Jaccard similarity
/// `shared / union` of their identity tokens plus a bonus of 0.18 when both
/// carry the same year. `union` is never 0; a path without tokens scores 0.
#[derive(Clone, Copy)]
pub struct PairingScore {
    pub shared: usize,
    pub union: usize,
    pub year_bonus: bool,
}

/// Fifty times the score, as the fraction `score_num / score_den`.
pub open spec fn score_num(s: PairingScore) -> int {
    50 * s.shared + if s.year_bonus {
        9 * s.union
    } else {
        0
    }
}

pub open spec fn score_den(s: PairingScore) -> int {
    s.union as int
}

pub open spec fn score_wf(s: PairingScore) -> bool {
    0 < s.union && s.shared <= s.union
}

/// Score `a` is at least score `b`.
pub open spec fn score_at_least(a: PairingScore, b: PairingScore) -> bool {
    score_num(a) * score_den(b) >= score_num(b) * score_den(a)
}

/// A score of at least 0.48, the least that suggests a pairing.
pub open spec fn score_suggests_pairing(s: PairingScore) -> bool {
    score_num(s) >= 24 * score_den(s)
}

/// The score of a paper against a mark scheme.
pub open spec fn pairing_of(paper: DocumentRow, scheme: DocumentRow) -> PairingScore {
    let a = identity_token_set(lowercase(paper.path@));
    let b = identity_token_set(lowercase(scheme.path@));
    if a.len() == 0 || b.len() == 0 {
        PairingScore { shared: 0, union: 1, year_bonus: false }
    } else {
        PairingScore {
            shared: a.intersect(b).len() as usize,
            union: (a + b).len() as usize,
            year_bonus: paper.year_hint is Some && paper.year_hint == scheme.year_hint,
        }
    }
}

fn count_shared(a: &Vec<Vec<char>>, b: &Vec<Vec<char>>) -> (r: usize)
    requires
        views(a@).no_duplicates(),
    ensures
        r == views(a@).to_set().intersect(views(b@).to_set()).len(),
{
    let ghost bs = views(b@).to_set();
    let ghost mut shared: Set<Seq<char>> = Set::empty();
    let mut n: usize = 0;
    for i in 0..a.len()
        invariant
            views(a@).no_duplicates(),
            bs == views(b@).to_set(),
            shared == views(a@.take(i as int)).to_set().intersect(bs),
            shared.finite(),
            n == shared.len(),
            n <= i,
    {
        let ghost t = a@[i as int]@;
        assert(views(a@.take(i + 1)) == views(a@.take(i as int)).push(t));
        proof {
            views(a@.take(i as int)).lemma_push_to_set_commute(t);
        }
        if contains_chars_item(b, &a[i]) {
            proof {
                assert(views(b@).contains(t));
                assert(bs.contains(t));
                assert(!shared.contains(t)) by {
                    if shared.contains(t) {
                        let k = choose|k: int|
                            0 <= k < i && views(a@.take(i as int))[k] == t;
                        assert(views(a@)[k] == views(a@)[i as int]);
                    }
                }
                shared = shared.insert(t);
            }
            n += 1;
        }
        assert(shared =~= views(a@.take(i + 1)).to_set().intersect(bs));
    }
    assert(a@.take(a.len() as int) == a@);
    n
}

/// The pairing score of two token lists.
fn score_tokens(a: &Vec<Vec<char>>, b: &Vec<Vec<char>>, same_year: bool) -> (r: PairingScore)
    requires
        views(a@).no_duplicates(),
        views(b@).no_duplicates(),
        a@.len() + b@.len() <= usize::MAX,
    ensures
        ({
            let sa = views(a@).to_set();
            let sb = views(b@).to_set();
            r == if sa.len() == 0 || sb.len() == 0 {
                PairingScore { shared: 0, union: 1, year_bonus: false }
            } else {
                PairingScore {
                    shared: sa.intersect(sb).len() as usize,
                    union: (sa + sb).len() as usize,
                    year_bonus: same_year,
                }
            }
        }),
        score_wf(r),
{
    proof {
        views(a@).unique_seq_to_set();
        views(b@).unique_seq_to_set();
    }
    let ghost sa = views(a@).to_set();
    let ghost sb = views(b@).to_set();
    if a.len() == 0 || b.len() == 0 {
        return PairingScore { shared: 0, union: 1, year_bonus: false };
    }
    let shared = count_shared(a, b);
    proof {
        lemma_set_intersect_union_lens(sa, sb);
        vstd::set_lib::lemma_len_intersect(sa, sb);
        vstd::set_lib::lemma_len_intersect(sb, sa);
        assert(sa.intersect(sb) =~= sb.intersect(sa));
    }
    let union = a.len() - shared + b.len();
    PairingScore { shared, union, year_bonus: same_year }
}

/// The pairing score of a paper against a mark scheme.
pub fn pairing_score(paper: &DocumentRow, scheme: &DocumentRow) -> (r: PairingScore)
    ensures
        r == pairing_of(*paper, *scheme),
        score_wf(r),
{
    let pa = lowercase_chars(paper.path.as_str());
    let pb = lowercase_chars(scheme.path.as_str());
    let a = identity_tokens_of_lowercased(&pa);
    let b = identity_tokens_of_lowercased(&pb);
    let la = pa.len();
    let lb = pb.len();
    assert(a@.len() + b@.len() <= usize::MAX);
    let same_year = match (paper.year_hint, scheme.year_hint) {
        (Some(x), Some(y)) => x == y,
        _ => false,
    };
    score_tokens(&a, &b, same_year)
}

} // verus!

verus! {

proof fn lemma_mixed_fraction_order(ia: int, ra: int, ua: int, ib: int, rb: int, ub: int)
    requires
        0 <= ra < ua,
        0 <= rb < ub,
    ensures
        ((ia * ua + ra) * ub >= (ib * ub + rb) * ua) == (ia > ib || (ia == ib && ra * ub >= rb
            * ua)),
{
    let lhs = (ia * ua + ra) * ub - (ib * ub + rb) * ua;
    assert(lhs == (ia - ib) * (ua * ub) + ra * ub - rb * ua) by (nonlinear_arith)
        requires
            lhs == (ia * ua + ra) * ub - (ib * ub + rb) * ua,
    ;
    assert(0 <= ra * ub) by (nonlinear_arith)
        requires
            0 <= ra,
            0 < ub,
    ;
    assert(ra * ub < ua * ub) by (nonlinear_arith)
        requires
            ra < ua,
            0 < ub,
    ;
    assert(0 <= rb * ua) by (nonlinear_arith)
        requires
            0 <= rb,
            0 < ua,
    ;
    assert(rb * ua < ub * ua) by (nonlinear_arith)
        requires
            rb < ub,
            0 < ua,
    ;
    assert(ua * ub == ub * ua) by (nonlinear_arith);
    if ia > ib {
        assert((ia - ib) * (ua * ub) >= ua * ub) by (nonlinear_arith)
            requires
                ia - ib >= 1,
                ua * ub > 0,
        ;
    } else if ia < ib {
        assert((ia - ib) * (ua * ub) <= -(ua * ub)) by (nonlinear_arith)
            requires
                ia - ib <= -1,
                ua * ub > 0,
        ;
    } else {
        assert((ia - ib) * (ua * ub) == 0) by (nonlinear_arith)
            requires
                ia == ib,
        ;
    }
    assert(ua * ub > 0) by (nonlinear_arith)
        requires
            0 < ua,
            0 < ub,
    ;
}

proof fn lemma_score_at_least_transitive(a: PairingScore, b: PairingScore, c: PairingScore)
    requires
        score_wf(a),
        score_wf(b),
        score_wf(c),
        score_at_least(a, b),
        score_at_least(b, c),
    ensures
        score_at_least(a, c),
{
    let (na, da) = (score_num(a), score_den(a));
    let (nb, db) = (score_num(b), score_den(b));
    let (nc, dc) = (score_num(c), score_den(c));
    assert(na * dc >= nc * da) by (nonlinear_arith)
        requires
            na * db >= nb * da,
            nb * dc >= nc * db,
            da > 0,
            db > 0,
            dc > 0,
    ;
}

/// Whether score `a` is at least score `b`, computed exactly.
pub fn score_at_least_exec(a: &PairingScore, b: &PairingScore) -> (r: bool)
    requires
        score_wf(*a),
        score_wf(*b),
    ensures
        r == score_at_least(*a, *b),
{
    let ua = a.union as u128;
    let ub = b.union as u128;
    let na = 50 * (a.shared as u128);
    let nb = 50 * (b.shared as u128);
    let ia = na / ua + if a.year_bonus {
        9
    } else {
        0
    };
    let ib = nb / ub + if b.year_bonus {
        9
    } else {
        0
    };
    let ra = na % ua;
    let rb = nb % ub;
    proof {
        assert(na == (na / ua) * ua + ra) by (nonlinear_arith)
            requires
                ua > 0,
                ra == na % ua,
        ;
        assert(nb == (nb / ub) * ub + rb) by (nonlinear_arith)
            requires
                ub > 0,
                rb == nb % ub,
        ;
        assert(score_num(*a) == ia * ua + ra) by (nonlinear_arith)
            requires
                na == (na / ua) * ua + ra,
                ia == na / ua + if a.year_bonus {
                    9int
                } else {
                    0int
                },
                score_num(*a) == na + if a.year_bonus {
                    9 * ua
                } else {
                    0
                },
        ;
        assert(score_num(*b) == ib * ub + rb) by (nonlinear_arith)
            requires
                nb == (nb / ub) * ub + rb,
                ib == nb / ub + if b.year_bonus {
                    9int
                } else {
                    0int
                },
                score_num(*b) == nb + if b.year_bonus {
                    9 * ub
                } else {
                    0
                },
        ;
        lemma_mixed_fraction_order(ia as int, ra as int, ua as int, ib as int, rb as int, ub as int);
        assert(ra * ub < 0x1_0000_0000_0000_0000 * 0x1_0000_0000_0000_0000) by (nonlinear_arith)
            requires
                ra < ua,
                ua <= 0xffff_ffff_ffff_ffff,
                ub <= 0xffff_ffff_ffff_ffff,
        ;
        assert(rb * ua < 0x1_0000_0000_0000_0000 * 0x1_0000_0000_0000_0000) by (nonlinear_arith)
            requires
                rb < ub,
                ua <= 0xffff_ffff_ffff_ffff,
                ub <= 0xffff_ffff_ffff_ffff,
        ;
    }
    if ia != ib {
        ia > ib
    } else {
        ra * ub >= rb * ua
    }
}

/// Whether a score suggests a pairing (at least 0.48).
pub fn score_suggests_pairing_exec(s: &PairingScore) -> (r: bool)
    requires
        score_wf(*s),
    ensures
        r == score_suggests_pairing(*s),
{
    let n = 50 * (s.shared as u128) + if s.year_bonus {
        9 * (s.union as u128)
    } else {
        0
    };
    n >= 24 * (s.union as u128)
}

/// The scheme at index `j` may be suggested for `paper`.
pub open spec fn qualifies(paper: DocumentRow, schemes: Seq<DocumentRow>, j: int) -> bool {
    0 <= j < schemes.len() && score_suggests_pairing(pairing_of(paper, schemes[j]))
}

/// The scheme at index `i` is the one suggested for `paper`: it qualifies, no
/// qualifying scheme scores higher, and no later qualifying scheme scores as
/// high (ties go to the last of the equally best schemes).
pub open spec fn is_best_scheme(paper: DocumentRow, schemes: Seq<DocumentRow>, i: int) -> bool {
    &&& qualifies(paper, schemes, i)
    &&& forall|j: int|
        qualifies(paper, schemes, j) ==> score_at_least(
            pairing_of(paper, schemes[i]),
            #[trigger] pairing_of(paper, schemes[j]),
        )
    &&& forall|j: int|
        i < j && qualifies(paper, schemes, j) ==> !score_at_least(
            #[trigger] pairing_of(paper, schemes[j]),
            pairing_of(paper, schemes[i]),
        )
}

/// Index of the mark scheme suggested for `paper`, if any.
pub open spec fn best_scheme_of(paper: DocumentRow, schemes: Seq<DocumentRow>) -> Option<int> {
    if exists|i: int| is_best_scheme(paper, schemes, i) {
        Some(choose|i: int| is_best_scheme(paper, schemes, i))
    } else {
        None
    }
}

/// The suggested scheme reaches 0.48, scores at least as high as every scheme
/// that reaches 0.48, and is the last of the equally best ones.
pub proof fn suggested_scheme_scores_best(paper: DocumentRow, schemes: Seq<DocumentRow>, i: int)
    requires
        best_scheme_of(paper, schemes) == Some(i),
    ensures
        0 <= i < schemes.len(),
        score_num(pairing_of(paper, schemes[i])) >= 24 * score_den(pairing_of(paper, schemes[i])),
        forall|j: int|
            0 <= j < schemes.len() && score_num(#[trigger] pairing_of(paper, schemes[j])) >= 24
                * score_den(pairing_of(paper, schemes[j])) ==> score_num(
                pairing_of(paper, schemes[i]),
            ) * score_den(pairing_of(paper, schemes[j])) >= score_num(pairing_of(paper, schemes[j]))
                * score_den(pairing_of(paper, schemes[i])),
        forall|j: int|
            i < j < schemes.len() && score_num(#[trigger] pairing_of(paper, schemes[j])) >= 24
                * score_den(pairing_of(paper, schemes[j])) ==> score_num(
                pairing_of(paper, schemes[j]),
            ) * score_den(pairing_of(paper, schemes[i])) < score_num(pairing_of(paper, schemes[i]))
                * score_den(pairing_of(paper, schemes[j])),
{
    assert(is_best_scheme(paper, schemes, i));
    assert forall|j: int|
        0 <= j < schemes.len() && score_num(#[trigger] pairing_of(paper, schemes[j])) >= 24
            * score_den(pairing_of(paper, schemes[j])) implies score_num(
            pairing_of(paper, schemes[i]),
        ) * score_den(pairing_of(paper, schemes[j])) >= score_num(pairing_of(paper, schemes[j]))
            * score_den(pairing_of(paper, schemes[i])) by {
        assert(qualifies(paper, schemes, j));
    }
    assert forall|j: int|
        i < j < schemes.len() && score_num(#[trigger] pairing_of(paper, schemes[j])) >= 24
            * score_den(pairing_of(paper, schemes[j])) implies score_num(
            pairing_of(paper, schemes[j]),
        ) * score_den(pairing_of(paper, schemes[i])) < score_num(pairing_of(paper, schemes[i]))
            * score_den(pairing_of(paper, schemes[j])) by {
        assert(qualifies(paper, schemes, j));
    }
}

/// `i` is the best of the first `n` schemes, in the sense of `is_best_scheme`.
spec fn is_best_among_first(paper: DocumentRow, schemes: Seq<DocumentRow>, i: int, n: int) -> bool {
    &&& 0 <= i < n
    &&& qualifies(paper, schemes, i)
    &&& forall|j: int|
        0 <= j < n && qualifies(paper, schemes, j) ==> score_at_least(
            pairing_of(paper, schemes[i]),
            #[trigger] pairing_of(paper, schemes[j]),
        )
    &&& forall|j: int|
        i < j < n && qualifies(paper, schemes, j) ==> !score_at_least(
            #[trigger] pairing_of(paper, schemes[j]),
            pairing_of(paper, schemes[i]),
        )
}

proof fn lemma_best_among_first_exists(
    paper: DocumentRow,
    schemes: Seq<DocumentRow>,
    n: int,
    w: int,
) -> (i: int)
    requires
        n <= schemes.len(),
        0 <= w < n,
        qualifies(paper, schemes, w),
        forall|k: int| 0 <= k < schemes.len() ==> score_wf(#[trigger] pairing_of(paper, schemes[k])),
    ensures
        is_best_among_first(paper, schemes, i, n),
    decreases n,
{
    let last = n - 1;
    let sl = pairing_of(paper, schemes[last]);
    if exists|k: int| 0 <= k < last && qualifies(paper, schemes, k) {
        let k = choose|k: int| 0 <= k < last && qualifies(paper, schemes, k);
        let b = lemma_best_among_first_exists(paper, schemes, last, k);
        let sb = pairing_of(paper, schemes[b]);
        if qualifies(paper, schemes, last) && score_at_least(sl, sb) {
            assert forall|j: int|
                0 <= j < n && qualifies(paper, schemes, j) implies score_at_least(
                sl,
                #[trigger] pairing_of(paper, schemes[j]),
            ) by {
                if j < last {
                    lemma_score_at_least_transitive(sl, sb, pairing_of(paper, schemes[j]));
                }
            }
            last
        } else {
            b
        }
    } else {
        assert(w == last);
        last
    }
}

/// Some scheme is suggested whenever one of them reaches 0.48 (the scores
/// being well formed: a positive union that holds the shared tokens).
pub proof fn a_scheme_is_suggested_when_one_qualifies(
    paper: DocumentRow,
    schemes: Seq<DocumentRow>,
    j: int,
)
    requires
        0 <= j < schemes.len(),
        score_num(pairing_of(paper, schemes[j])) >= 24 * score_den(pairing_of(paper, schemes[j])),
        forall|k: int| 0 <= k < schemes.len() ==> score_wf(#[trigger] pairing_of(paper, schemes[k])),
    ensures
        best_scheme_of(paper, schemes) is Some,
{
    let i = lemma_best_among_first_exists(paper, schemes, schemes.len() as int, j);
    assert(is_best_scheme(paper, schemes, i));
}

proof fn lemma_best_scheme_unique(paper: DocumentRow, schemes: Seq<DocumentRow>, i: int, k: int)
    requires
        is_best_scheme(paper, schemes, i),
        is_best_scheme(paper, schemes, k),
    ensures
        i == k,
{
    if i < k {
        assert(score_at_least(pairing_of(paper, schemes[k]), pairing_of(paper, schemes[i])));
    } else if k < i {
        assert(score_at_least(pairing_of(paper, schemes[i]), pairing_of(paper, schemes[k])));
    }
}

fn best_scheme_index(paper: &DocumentRow, schemes: &Vec<DocumentRow>) -> (r: Option<usize>)
    ensures
        match r {
            Some(i) => best_scheme_of(*paper, schemes@) == Some(i as int),
            None => best_scheme_of(*paper, schemes@) is None,
        },
        r is None ==> forall|j: int| !qualifies(*paper, schemes@, j),
{
    let mut best: Option<usize> = None;
    let mut best_score = PairingScore { shared: 0, union: 1, year_bonus: false };
    for i in 0..schemes.len()
        invariant
            score_wf(best_score),
            forall|j: int| 0 <= j < i ==> score_wf(#[trigger] pairing_of(*paper, schemes@[j])),
            best is None ==> forall|j: int| 0 <= j < i ==> !qualifies(*paper, schemes@, j),
            best matches Some(b) ==> {
                &&& b < i
                &&& best_score == pairing_of(*paper, schemes@[b as int])
                &&& qualifies(*paper, schemes@, b as int)
                &&& forall|j: int|
                    0 <= j < i && qualifies(*paper, schemes@, j) ==> score_at_least(
                        best_score,
                        #[trigger] pairing_of(*paper, schemes@[j]),
                    )
                &&& forall|j: int|
                    b < j < i && qualifies(*paper, schemes@, j) ==> !score_at_least(
                        #[trigger] pairing_of(*paper, schemes@[j]),
                        best_score,
                    )
            },
    {
        let s = pairing_score(paper, &schemes[i]);
        if score_suggests_pairing_exec(&s) {
            let take = match best {
                None => true,
                Some(_) => score_at_least_exec(&s, &best_score),
            };
            if take {
                proof {
                    assert forall|j: int|
                        0 <= j < i + 1 && qualifies(*paper, schemes@, j) implies score_at_least(
                        s,
                        #[trigger] pairing_of(*paper, schemes@[j]),
                    ) by {
                        if j < i {
                            lemma_score_at_least_transitive(
                                s,
                                best_score,
                                pairing_of(*paper, schemes@[j]),
                            );
                        }
                    }
                }
                best = Some(i);
                best_score = s;
            }
        }
    }
    match best {
        Some(b) => {
            assert(is_best_scheme(*paper, schemes@, b as int));
            proof {
                let k = choose|k: int| is_best_scheme(*paper, schemes@, k);
                lemma_best_scheme_unique(*paper, schemes@, b as int, k);
            }
            Some(b)
        },
        None => {
            assert(forall|i: int| !is_best_scheme(*paper, schemes@, i));
            None
        },
    }
}

/// The mark scheme suggested for a paper: the best-scoring scheme among those
/// scoring at least 0.48, the last one on ties; none when no scheme qualifies.
/// Some scheme is suggested exactly when one of them scores at least 0.48.
pub fn best_mark_scheme<'a>(paper: &DocumentRow, schemes: &'a Vec<DocumentRow>) -> (r: Option<
    &'a DocumentRow,
>)
    ensures
        match best_scheme_of(*paper, schemes@) {
            Some(i) => r == Some(&schemes@[i]),
            None => r is None,
        },
        r is Some <==> exists|j: int| qualifies(*paper, schemes@, j),
{
    match best_scheme_index(paper, schemes) {
        Some(i) => {
            assert(is_best_scheme(*paper, schemes@, i as int));
            assert(qualifies(*paper, schemes@, i as int));
            Some(&schemes[i])
        },
        None => None,
    }
}

} // verus!

verus! {

impl Clone for DocumentRow {
    fn clone(&self) -> (r: Self)
        ensures
            r == *self,
    {
        DocumentRow {
            id: self.id.clone(),
            title: self.title.clone(),
            path: self.path.clone(),
            subject_hint: match &self.subject_hint {
                Some(s) => Some(s.clone()),
                None => None,
            },
            year_hint: self.year_hint,
        }
    }
}

// ---------------------------------------------------------------------------
// The exam library of a subject
// ---------------------------------------------------------------------------

/// Most question papers that the exam library lists.
pub const MAX_LIBRARY_PAPERS: usize = 250;

pub open spec fn opt_text(o: Option<String>) -> Option<Seq<char>> {
    match o {
        Some(s) => Some(s@),
        None => None,
    }
}

pub open spec fn relevant_pred(subject_lower: Seq<char>) -> spec_fn(DocumentRow) -> bool {
    |d: DocumentRow| subject_matches(subject_lower, lowercase(d.title@))
}

pub open spec fn scheme_pred() -> spec_fn(DocumentRow) -> bool {
    |d: DocumentRow| mark_scheme_path(lowercase(d.path@))
}

pub open spec fn question_paper_pred() -> spec_fn(DocumentRow) -> bool {
    |d: DocumentRow| !mark_scheme_path(lowercase(d.path@))
}

/// The mark schemes among the documents of a subject, in their given order.
pub open spec fn library_schemes(subject_name: Seq<char>, docs: Seq<DocumentRow>) -> Seq<
    DocumentRow,
> {
    docs.filter(relevant_pred(lowercase(subject_name))).filter(scheme_pred())
}

/// The question papers among the documents of a subject, in their given order.
pub open spec fn library_papers(subject_name: Seq<char>, docs: Seq<DocumentRow>) -> Seq<
    DocumentRow,
> {
    docs.filter(relevant_pred(lowercase(subject_name))).filter(question_paper_pred())
}

/// `c` offers the mark scheme `d`.
pub open spec fn offers_scheme(c: ExamMarkSchemeCandidate, d: DocumentRow) -> bool {
    &&& c.id@ == d.id@
    &&& c.title@ == d.title@
    &&& c.path@ == d.path@
    &&& c.year_hint == d.year_hint
}

/// `c` offers the paper `d`, with its detected mode and the mark scheme of
/// `schemes` suggested for it.
pub open spec fn offers_paper(
    c: ExamPaperCandidate,
    d: DocumentRow,
    schemes: Seq<DocumentRow>,
) -> bool {
    &&& c.id@ == d.id@
    &&& c.title@ == d.title@
    &&& c.path@ == d.path@
    &&& opt_text(c.subject_hint) == opt_text(d.subject_hint)
    &&& c.year_hint == d.year_hint
    &&& c.detected_mode@ == mode_for(lowercase(d.path@))
    &&& match best_scheme_of(d, schemes) {
        Some(i) => {
            &&& opt_text(c.suggested_mark_scheme_id) == Some(schemes[i].id@)
            &&& opt_text(c.suggested_mark_scheme_title) == Some(schemes[i].title@)
        },
        None => c.suggested_mark_scheme_id is None && c.suggested_mark_scheme_title is None,
    }
}

/// A library keeps papers and mark schemes apart: every mark scheme it
/// offers has a mark-scheme path and every paper it considers has not, and
/// both belong to the subject by their titles.
pub proof fn library_keeps_papers_and_schemes_apart(subject_name: Seq<char>, docs: Seq<DocumentRow>)
    ensures
        forall|i: int|
            0 <= i < library_schemes(subject_name, docs).len() ==> {
                let d = #[trigger] library_schemes(subject_name, docs)[i];
                mark_scheme_path(lowercase(d.path@)) && subject_matches(
                    lowercase(subject_name),
                    lowercase(d.title@),
                )
            },
        forall|i: int|
            0 <= i < library_papers(subject_name, docs).len() ==> {
                let d = #[trigger] library_papers(subject_name, docs)[i];
                !mark_scheme_path(lowercase(d.path@)) && subject_matches(
                    lowercase(subject_name),
                    lowercase(d.title@),
                )
            },
{
    let relevant = relevant_pred(lowercase(subject_name));
    let rel = docs.filter(relevant);
    assert forall|i: int| 0 <= i < rel.filter(scheme_pred()).len() implies {
        let d = #[trigger] rel.filter(scheme_pred())[i];
        mark_scheme_path(lowercase(d.path@)) && subject_matches(
            lowercase(subject_name),
            lowercase(d.title@),
        )
    } by {
        rel.lemma_filter_pred(scheme_pred(), i);
        let d = rel.filter(scheme_pred())[i];
        assert(rel.filter(scheme_pred()).contains(d));
        rel.lemma_filter_contains_rev(scheme_pred(), d);
        let j = choose|j: int| 0 <= j < rel.len() && rel[j] == d;
        docs.lemma_filter_pred(relevant, j);
    }
    assert forall|i: int| 0 <= i < rel.filter(question_paper_pred()).len() implies {
        let d = #[trigger] rel.filter(question_paper_pred())[i];
        !mark_scheme_path(lowercase(d.path@)) && subject_matches(
            lowercase(subject_name),
            lowercase(d.title@),
        )
    } by {
        rel.lemma_filter_pred(question_paper_pred(), i);
        let d = rel.filter(question_paper_pred())[i];
        assert(rel.filter(question_paper_pred()).contains(d));
        rel.lemma_filter_contains_rev(question_paper_pred(), d);
        let j = choose|j: int| 0 <= j < rel.len() && rel[j] == d;
        docs.lemma_filter_pred(relevant, j);
    }
}

fn copy_opt(o: &Option<String>) -> (r: Option<String>)
    ensures
        r == *o,
{
    match o {
        Some(s) => Some(s.clone()),
        None => None,
    }
}

fn scheme_candidate(d: &DocumentRow) -> (c: ExamMarkSchemeCandidate)
    ensures
        offers_scheme(c, *d),
{
    ExamMarkSchemeCandidate {
        id: d.id.clone(),
        title: d.title.clone(),
        path: d.path.clone(),
        year_hint: d.year_hint,
    }
}

fn paper_candidate(d: &DocumentRow, schemes: &Vec<DocumentRow>) -> (c: ExamPaperCandidate)
    ensures
        offers_paper(c, *d, schemes@),
{
    let suggested = best_mark_scheme(d, schemes);
    let (suggested_id, suggested_title) = match suggested {
        Some(s) => (Some(s.id.clone()), Some(s.title.clone())),
        None => (None, None),
    };
    ExamPaperCandidate {
        id: d.id.clone(),
        title: d.title.clone(),
        path: d.path.clone(),
        subject_hint: copy_opt(&d.subject_hint),
        year_hint: d.year_hint,
        detected_mode: detect_mode(d.path.as_str()),
        suggested_mark_scheme_id: suggested_id,
        suggested_mark_scheme_title: suggested_title,
    }
}

/// The exam library of a subject, built from the indexed PDFs: the documents
/// whose titles belong to the subject are split into mark schemes and
/// question papers (order kept); every scheme is offered, and the first 250
/// papers are offered with their detected mode and suggested mark scheme.
pub fn build_library(subject_name: &str, documents: &Vec<DocumentRow>) -> (lib: ExamLibrary)
    ensures
        ({
            let schemes = library_schemes(subject_name@, documents@);
            let papers = library_papers(subject_name@, documents@);
            &&& lib.mark_schemes@.len() == schemes.len()
            &&& forall|i: int|
                0 <= i < schemes.len() ==> offers_scheme(#[trigger] lib.mark_schemes@[i], schemes[i])
            &&& lib.papers@.len() == if papers.len() < MAX_LIBRARY_PAPERS {
                papers.len() as int
            } else {
                MAX_LIBRARY_PAPERS as int
            }
            &&& forall|i: int|
                0 <= i < lib.papers@.len() ==> offers_paper(
                    #[trigger] lib.papers@[i],
                    papers[i],
                    schemes,
                )
        }),
{
    let ghost subject = lowercase(subject_name@);
    let mut schemes: Vec<DocumentRow> = Vec::new();
    let mut papers: Vec<DocumentRow> = Vec::new();
    proof {
        reveal(Seq::filter);
        assert(documents@.take(0) =~= Seq::<DocumentRow>::empty());
    }
    for i in 0..documents.len()
        invariant
            subject == lowercase(subject_name@),
            schemes@ == documents@.take(i as int).filter(relevant_pred(subject)).filter(
                scheme_pred(),
            ),
            papers@ == documents@.take(i as int).filter(relevant_pred(subject)).filter(
                question_paper_pred(),
            ),
    {
        let ghost before = documents@.take(i as int);
        let ghost d = documents@[i as int];
        assert(documents@.take(i + 1) == before.push(d));
        proof {
            before.lemma_filter_push(d, relevant_pred(subject));
            before.filter(relevant_pred(subject)).lemma_filter_push(d, scheme_pred());
            before.filter(relevant_pred(subject)).lemma_filter_push(d, question_paper_pred());
        }
        let doc = &documents[i];
        if matches_subject_document(subject_name, doc) {
            if is_mark_scheme(doc.path.as_str()) {
                schemes.push(doc.clone());
            } else {
                papers.push(doc.clone());
            }
        }
    }
    assert(documents@.take(documents.len() as int) == documents@);
    let mut mark_schemes: Vec<ExamMarkSchemeCandidate> = Vec::new();
    for i in 0..schemes.len()
        invariant
            mark_schemes@.len() == i,
            forall|k: int|
                0 <= k < i ==> offers_scheme(#[trigger] mark_schemes@[k], schemes@[k]),
    {
        mark_schemes.push(scheme_candidate(&schemes[i]));
    }
    let count = if papers.len() < MAX_LIBRARY_PAPERS {
        papers.len()
    } else {
        MAX_LIBRARY_PAPERS
    };
    let mut offered: Vec<ExamPaperCandidate> = Vec::new();
    for i in 0..count
        invariant
            count <= papers.len(),
            offered@.len() == i,
            forall|k: int|
                0 <= k < i ==> offers_paper(#[trigger] offered@[k], papers@[k], schemes@),
    {
        offered.push(paper_candidate(&papers[i], &schemes));
    }
    ExamLibrary { papers: offered, mark_schemes }
}

} // verus!

verus! {

// ---------------------------------------------------------------------------
// Multiple-choice answer keys
// ---------------------------------------------------------------------------

/// The matches of the regular expression `pattern` in `text`, as
/// `regex::Regex::captures_iter` yields them (leftmost-first, without
/// overlap); for each match the text of every capture group by index (index 0
/// is the whole match, `None` for a group that took no part). `None` when
/// `pattern` does not compile.
pub uninterp spec fn regex_captures(pattern: Seq<char>, text: Seq<char>) -> Option<
    Seq<Seq<Option<Seq<char>>>>,
>;

pub open spec fn groups_view(groups: Vec<Option<String>>) -> Seq<Option<Seq<char>>> {
    groups@.map_values(|g: Option<String>| opt_text(g))
}

pub open spec fn captures_view(caps: Seq<Vec<Option<String>>>) -> Seq<Seq<Option<Seq<char>>>> {
    caps.map_values(|groups: Vec<Option<String>>| groups_view(groups))
}

/// Compiles `pattern` with `regex::Regex::new` and collects the capture groups
/// of every match of `Regex::captures_iter` over `text`; the contract only
/// names the result, since the regular-expression semantics (Unicode classes
/// and word boundaries) are not restated here.
#[verifier::external_body]
fn regex_captures_of(pattern: &str, text: &str) -> (r: Option<Vec<Vec<Option<String>>>>)
    ensures
        match r {
            Some(caps) => regex_captures(pattern@, text@) == Some(captures_view(caps@)),
            None => regex_captures(pattern@, text@) is None,
        },
{
    let re = regex::Regex::new(pattern).ok()?;
    Some(
        re.captures_iter(text).map(
            |caps| caps.iter().map(|group| group.map(|m| m.as_str().to_string())).collect(),
        ).collect(),
    )
}

/// A question number and its correct choice.
pub struct AnswerKeyItem {
    pub question_number: i64,
    pub choice: String,
}

/// The pattern of one answer-key entry: a number of one to three digits,
/// optional punctuation, and a choice A to D, in any letter case.
pub const ANSWER_KEY_PATTERN: &'static str = r"(?i)\b(\d{1,3})\s*[\).:\-]?\s*([A-D])\b";

/// Highest question number that an answer key may hold.
pub const MAX_KEY_QUESTION: i64 = 150;

/// The question number a match contributes: its first group parsed as an
/// `i64` and within 1 to 150, when the match also has a second group.
pub open spec fn capture_number(groups: Seq<Option<Seq<char>>>) -> Option<int> {
    if groups.len() > 2 && groups[1] is Some && groups[2] is Some {
        match parse_i64_text(groups[1]->0) {
            Some(n) => if 1 <= n <= 150 {
                Some(n as int)
            } else {
                None
            },
            None => None,
        }
    } else {
        None
    }
}

/// Each question number of the matches mapped to the upper-cased choice of
/// its first match.
pub open spec fn answer_candidates(caps: Seq<Seq<Option<Seq<char>>>>) -> Map<int, Seq<char>>
    decreases caps.len(),
{
    if caps.len() == 0 {
        Map::empty()
    } else {
        let m = answer_candidates(caps.drop_last());
        match capture_number(caps.last()) {
            Some(n) => if m.dom().contains(n) {
                m
            } else {
                m.insert(n, uppercase(caps.last()[2]->0))
            },
            None => m,
        }
    }
}

/// `k` is the largest question number of `m`.
pub open spec fn is_max_question(m: Map<int, Seq<char>>, k: int) -> bool {
    m.dom().contains(k) && forall|j: int| #[trigger] m.dom().contains(j) ==> j <= k
}

/// The candidates form a plausible answer key: the highest question number
/// is between 3 and 100, question 1 is present, and at least 68% of the
/// questions up to the highest have a choice.
pub open spec fn plausible_key(m: Map<int, Seq<char>>) -> bool {
    exists|k: int|
        #[trigger] is_max_question(m, k) && 3 <= k <= 100 && m.dom().contains(1) && 100
            * m.dom().len() >= 68 * k
}

pub open spec fn key_view(items: Seq<AnswerKeyItem>) -> Seq<(int, Seq<char>)> {
    items.map_values(|it: AnswerKeyItem| (it.question_number as int, it.choice@))
}

/// `items` lists every entry of `m` once, by increasing question number.
pub open spec fn lists_in_order(items: Seq<(int, Seq<char>)>, m: Map<int, Seq<char>>) -> bool {
    &&& forall|i: int, j: int| 0 <= i < j < items.len() ==> items[i].0 < items[j].0
    &&& forall|i: int|
        0 <= i < items.len() ==> m.dom().contains(#[trigger] items[i].0) && m[items[i].0]
            == items[i].1
    &&& forall|n: int| #[trigger] m.dom().contains(n) ==> exists|i: int|
        0 <= i < items.len() && #[trigger] items[i].0 == n
}

/// The answer key read from a list of matches: their candidates in order of
/// question number when they are plausible, otherwise nothing.
pub open spec fn answer_key_of(caps: Seq<Seq<Option<Seq<char>>>>, items: Seq<(int, Seq<char>)>) -> bool {
    let m = answer_candidates(caps);
    if plausible_key(m) {
        lists_in_order(items, m)
    } else {
        items.len() == 0
    }
}

pub open spec fn question_of() -> spec_fn((int, Seq<char>)) -> int {
    |p: (int, Seq<char>)| p.0
}

/// A non-empty answer key starts at question 1, lists its questions in
/// increasing order, ends at question 100 at the latest, and has a choice for
/// at least 68% of the questions up to its last one.
pub proof fn accepted_answer_keys_are_dense(
    caps: Seq<Seq<Option<Seq<char>>>>,
    items: Seq<(int, Seq<char>)>,
)
    requires
        answer_key_of(caps, items),
        items.len() > 0,
    ensures
        items[0].0 == 1,
        forall|i: int, j: int| 0 <= i < j < items.len() ==> items[i].0 < items[j].0,
        items.last().0 <= 100,
        100 * items.len() >= 68 * items.last().0,
{
    let m = answer_candidates(caps);
    lemma_candidates_in_range(caps);
    assert(plausible_key(m));
    let k = choose|k: int|
        #[trigger] is_max_question(m, k) && 3 <= k <= 100 && m.dom().contains(1) && 100
            * m.dom().len() >= 68 * k;
    let last = items.len() - 1;
    assert(m.dom().contains(items[last].0));
    let ik = choose|i: int| 0 <= i < items.len() && #[trigger] items[i].0 == k;
    assert(items[ik].0 <= items[last].0) by {
        if ik < last {
            assert(items[ik].0 < items[last].0);
        }
    }
    let i1 = choose|i: int| 0 <= i < items.len() && #[trigger] items[i].0 == 1;
    assert(items[0].0 <= items[i1].0) by {
        if 0 < i1 {
            assert(items[0].0 < items[i1].0);
        }
    }
    assert(m.dom().contains(items[0].0));
    let keys = items.map_values(question_of());
    assert(keys.no_duplicates()) by {
        assert forall|i: int, j: int| 0 <= i < keys.len() && 0 <= j < keys.len() && i != j implies keys[i]
            != keys[j] by {
            if i < j {
                assert(items[i].0 < items[j].0);
            } else {
                assert(items[j].0 < items[i].0);
            }
        }
    }
    assert(keys.to_set() =~= m.dom()) by {
        assert forall|n: int| keys.to_set().contains(n) implies m.dom().contains(n) by {
            let i = choose|i: int| 0 <= i < keys.len() && keys[i] == n;
            assert(m.dom().contains(items[i].0));
        }
        assert forall|n: int| m.dom().contains(n) implies keys.to_set().contains(n) by {
            let i = choose|i: int| 0 <= i < items.len() && #[trigger] items[i].0 == n;
            assert(keys[i] == n);
        }
    }
    keys.unique_seq_to_set();
}

proof fn lemma_candidates_in_range(caps: Seq<Seq<Option<Seq<char>>>>)
    ensures
        forall|n: int| #[trigger] answer_candidates(caps).dom().contains(n) ==> 1 <= n <= 150,
        answer_candidates(caps).dom().finite(),
    decreases caps.len(),
{
    if caps.len() > 0 {
        lemma_candidates_in_range(caps.drop_last());
    }
}

proof fn lemma_candidate_count_bounded(m: Map<int, Seq<char>>)
    requires
        forall|n: int| #[trigger] m.dom().contains(n) ==> 1 <= n <= 150,
        m.dom().finite(),
    ensures
        m.dom().len() <= 150,
{
    let r = vstd::set_lib::set_int_range(1, 151);
    vstd::set_lib::lemma_int_range(1, 151);
    assert(m.dom().subset_of(r));
    vstd::set_lib::lemma_len_subset(m.dom(), r);
}

/// The answer key of a mark scheme given the matches of
/// `ANSWER_KEY_PATTERN` in its text.
pub fn answer_key_from_captures(caps: &Vec<Vec<Option<String>>>) -> (r: Vec<AnswerKeyItem>)
    ensures
        answer_key_of(captures_view(caps@), key_view(r@)),
{
    let mut candidates: BTreeMap<i64, String> = BTreeMap::new();
    let mut count: usize = 0;
    let mut max: i64 = 0;
    proof {
        assert(captures_view(caps@.take(0)) =~= Seq::<Seq<Option<Seq<char>>>>::empty());
    }
    for i in 0..caps.len()
        invariant
            forall|k: i64|
                #[trigger] candidates@.contains_key(k) == answer_candidates(
                    captures_view(caps@.take(i as int)),
                ).dom().contains(k as int),
            forall|k: i64|
                #[trigger] candidates@.contains_key(k) ==> candidates@[k]@ == answer_candidates(
                    captures_view(caps@.take(i as int)),
                )[k as int],
            count == answer_candidates(captures_view(caps@.take(i as int))).dom().len(),
            count <= 150,
            0 <= max <= 150,
            max == 0 ==> answer_candidates(captures_view(caps@.take(i as int))).dom().len() == 0,
            max > 0 ==> is_max_question(
                answer_candidates(captures_view(caps@.take(i as int))),
                max as int,
            ),
    {
        let ghost before = captures_view(caps@.take(i as int));
        let ghost m = answer_candidates(before);
        let ghost g = captures_view(caps@)[i as int];
        assert(captures_view(caps@.take(i + 1)) =~= before.push(g));
        assert(before.push(g).drop_last() =~= before);
        proof {
            lemma_candidates_in_range(before);
        }
        let groups = &caps[i];
        assert(groups_view(*groups) == g);
        if groups.len() > 2 {
            match (&groups[1], &groups[2]) {
                (Some(number_text), Some(choice_text)) => {
                    assert(g[1] == Some(number_text@));
                    assert(g[2] == Some(choice_text@));
                    let digits = chars_of(number_text.as_str());
                    match parse_i64(&digits) {
                        Some(n) => {
                            if 1 <= n && n <= MAX_KEY_QUESTION {
                                if !candidates.contains_key(&n) {
                                    let choice = to_uppercase(choice_text.as_str());
                                    proof {
                                        assert(!m.dom().contains(n as int));
                                        assert(m.insert(n as int, choice@).dom() =~= m.dom().insert(
                                            n as int,
                                        ));
                                    }
                                    candidates.insert(n, choice);
                                    count += 1;
                                    if n > max {
                                        max = n;
                                    }
                                } else {
                                    assert(m.dom().contains(n as int));
                                }
                            }
                        },
                        None => {},
                    }
                },
                _ => {},
            }
        }
        proof {
            lemma_candidates_in_range(captures_view(caps@.take(i + 1)));
            lemma_candidate_count_bounded(answer_candidates(captures_view(caps@.take(i + 1))));
        }
    }
    assert(caps@.take(caps.len() as int) == caps@);
    let ghost m = answer_candidates(captures_view(caps@));
    proof {
        lemma_candidates_in_range(captures_view(caps@));
    }
    let plausible = 3 <= max && max <= 100 && candidates.contains_key(&1) && 100 * count >= 68 * (
    max as usize);
    if !plausible {
        assert(!plausible_key(m)) by {
            if plausible_key(m) {
                let k = choose|k: int|
                    #[trigger] is_max_question(m, k) && 3 <= k <= 100 && m.dom().contains(1) && 100
                        * m.dom().len() >= 68 * k;
                if max > 0 {
                    assert(k == max);
                } else {
                    assert(m.dom().contains(k));
                }
            }
        }
        return Vec::new();
    }
    assert(is_max_question(m, max as int));
    let mut items: Vec<AnswerKeyItem> = Vec::new();
    for n in 1..151usize
        invariant
            forall|k: i64| #[trigger] candidates@.contains_key(k) == m.dom().contains(k as int),
            forall|k: i64| #[trigger] candidates@.contains_key(k) ==> candidates@[k]@ == m[k as int],
            forall|q: int| #[trigger] m.dom().contains(q) ==> 1 <= q <= 150,
            forall|a: int, b: int|
                0 <= a < b < items@.len() ==> items@[a].question_number
                    < items@[b].question_number,
            forall|a: int|
                0 <= a < items@.len() ==> 1 <= #[trigger] items@[a].question_number < n,
            forall|a: int|
                0 <= a < items@.len() ==> m.dom().contains(
                    #[trigger] items@[a].question_number as int,
                ) && m[items@[a].question_number as int] == items@[a].choice@,
            forall|q: int|
                1 <= q < n && #[trigger] m.dom().contains(q) ==> exists|a: int|
                    0 <= a < items@.len() && #[trigger] items@[a].question_number == q,
    {
        let ghost old_items = items@;
        let question = n as i64;
        match candidates.get(&question) {
            Some(choice) => {
                assert(m.dom().contains(n as int));
                items.push(AnswerKeyItem { question_number: question, choice: choice.clone() });
                assert(items@[items@.len() - 1].question_number == n);
                assert forall|q: int|
                    1 <= q < n + 1 && #[trigger] m.dom().contains(q) implies exists|a: int|
                        0 <= a < items@.len() && #[trigger] items@[a].question_number == q by {
                    if q < n {
                        let a = choose|a: int|
                            0 <= a < old_items.len() && #[trigger] old_items[a].question_number
                                == q;
                        assert(items@[a] == old_items[a]);
                    } else {
                        assert(items@[items@.len() - 1].question_number == q);
                    }
                }
            },
            None => {
                assert(!m.dom().contains(n as int));
            },
        }
    }
    assert(lists_in_order(key_view(items@), m)) by {
        assert forall|q: int| #[trigger] m.dom().contains(q) implies exists|a: int|
            0 <= a < key_view(items@).len() && #[trigger] key_view(items@)[a].0 == q by {
            let a = choose|a: int| 0 <= a < items@.len() && #[trigger] items@[a].question_number == q;
            assert(key_view(items@)[a].0 == q);
        }
    }
    items
}

/// Reads a multiple-choice answer key ("1 A 2 B 3 D ...") out of mark-scheme
/// text. Returns nothing unless the entries look like a real key.
pub fn parse_answer_key(text: &str) -> (r: Vec<AnswerKeyItem>)
    ensures
        match regex_captures(ANSWER_KEY_PATTERN@, text@) {
            Some(caps) => answer_key_of(caps, key_view(r@)),
            None => r@.len() == 0,
        },
{
    match regex_captures_of(ANSWER_KEY_PATTERN, text) {
        Some(caps) => answer_key_from_captures(&caps),
        None => Vec::new(),
    }
}

} // verus!

verus! {

// ---------------------------------------------------------------------------
// Attempts and grading
// ---------------------------------------------------------------------------

/// Longest exam attempt, in minutes.
pub const MAX_ATTEMPT_MINUTES: i64 = 300;

/// Why an exam-lab request was refused.
pub enum ExamError {
    /// The mode is neither "mcq" nor "theory".
    InvalidMode,
    /// The duration is not between 1 and 300 minutes.
    InvalidDuration,
    /// The subject is not one of the profile's subjects.
    UnknownSubject,
    /// The paper is not a PDF.
    NotAPdf,
    /// The attempt was already submitted.
    AlreadySubmitted,
    /// A multiple-choice answer came without a question number.
    MissingQuestionNumber,
}

/// The error, if any, for a new attempt's mode and duration.
pub open spec fn attempt_request_error(mode: Seq<char>, duration_minutes: int) -> Option<ExamError> {
    if !(mode == "mcq"@ || mode == "theory"@) {
        Some(ExamError::InvalidMode)
    } else if !(1 <= duration_minutes <= 300) {
        Some(ExamError::InvalidDuration)
    } else {
        None
    }
}

/// Checks the mode and duration of a new attempt (before anything is read).
pub fn validate_attempt_request(mode: &str, duration_minutes: i64) -> (r: Result<(), ExamError>)
    ensures
        match attempt_request_error(mode@, duration_minutes as int) {
            Some(e) => r == Err::<(), ExamError>(e),
            None => r is Ok,
        },
{
    if !(text_equals(mode, "mcq") || text_equals(mode, "theory")) {
        return Err(ExamError::InvalidMode);
    }
    if !(1 <= duration_minutes && duration_minutes <= MAX_ATTEMPT_MINUTES) {
        return Err(ExamError::InvalidDuration);
    }
    Ok(())
}

/// An attempt reads an answer key only in multiple-choice mode with a mark scheme.
pub fn attempt_uses_answer_key(mode: &str, mark_scheme_document_id: &Option<String>) -> (r: bool)
    ensures
        r == (mode@ == "mcq"@ && mark_scheme_document_id is Some),
{
    text_equals(mode, "mcq") && mark_scheme_document_id.is_some()
}

/// The error, if any, for saving an answer to an attempt in `status` and `mode`.
pub open spec fn answer_error(status: Seq<char>, mode: Seq<char>, question_number: Option<i64>) -> Option<ExamError> {
    if status != "active"@ {
        Some(ExamError::AlreadySubmitted)
    } else if mode == "mcq"@ && question_number is None {
        Some(ExamError::MissingQuestionNumber)
    } else {
        None
    }
}

/// Checks that an answer may be saved: the attempt is still active, and a
/// multiple-choice answer names its question.
pub fn validate_answer(status: &str, mode: &str, question_number: Option<i64>) -> (r: Result<
    (),
    ExamError,
>)
    ensures
        match answer_error(status@, mode@, question_number) {
            Some(e) => r == Err::<(), ExamError>(e),
            None => r is Ok,
        },
{
    if !text_equals(status, "active") {
        return Err(ExamError::AlreadySubmitted);
    }
    if text_equals(mode, "mcq") && question_number.is_none() {
        return Err(ExamError::MissingQuestionNumber);
    }
    Ok(())
}

/// `c` with ASCII capitals made small (as `char::to_ascii_lowercase`).
pub open spec fn ascii_lower(c: char) -> char {
    if 'A' <= c <= 'Z' {
        ((c as u32) + 32) as char
    } else {
        c
    }
}

/// Two texts are equal ignoring ASCII letter case (as `str::eq_ignore_ascii_case`).
pub open spec fn eq_ignore_ascii_case(a: Seq<char>, b: Seq<char>) -> bool {
    a.len() == b.len() && forall|i: int| 0 <= i < a.len() ==> ascii_lower(a[i]) == ascii_lower(b[i])
}

fn ascii_lower_exec(c: char) -> (r: char)
    ensures
        r == ascii_lower(c),
{
    if 'A' <= c && c <= 'Z' {
        ((c as u8) + 32) as char
    } else {
        c
    }
}

/// Whether two texts are equal ignoring ASCII letter case.
pub fn text_eq_ignore_ascii_case(a: &str, b: &str) -> (r: bool)
    ensures
        r == eq_ignore_ascii_case(a@, b@),
{
    let x = chars_of(a);
    let y = chars_of(b);
    if x.len() != y.len() {
        return false;
    }
    let mut i: usize = 0;
    while i < x.len()
        invariant
            x@ == a@,
            y@ == b@,
            x.len() == y.len(),
            i <= x.len(),
            forall|k: int| 0 <= k < i ==> ascii_lower(x@[k]) == ascii_lower(y@[k]),
        decreases x.len() - i,
    {
        if ascii_lower_exec(x[i]) != ascii_lower_exec(y[i]) {
            return false;
        }
        i += 1;
    }
    true
}

/// The latest answer recorded for question `q` (answers later in the list
/// replace earlier ones for the same question).
pub open spec fn answer_for(answers: Seq<(i64, Seq<char>)>, q: i64) -> Option<Seq<char>>
    decreases answers.len(),
{
    if answers.len() == 0 {
        None
    } else if answers.last().0 == q {
        Some(answers.last().1)
    } else {
        answer_for(answers.drop_last(), q)
    }
}

pub open spec fn answers_view(answers: Seq<(i64, String)>) -> Seq<(i64, Seq<char>)> {
    answers.map_values(|a: (i64, String)| (a.0, a.1@))
}

/// The key item is answered correctly.
pub open spec fn answered_correctly(answers: Seq<(i64, Seq<char>)>, item: (int, Seq<char>)) -> bool {
    match answer_for(answers, item.0 as i64) {
        Some(a) => eq_ignore_ascii_case(a, item.1),
        None => false,
    }
}

pub open spec fn correct_pred(answers: Seq<(i64, Seq<char>)>) -> spec_fn((int, Seq<char>)) -> bool {
    |item: (int, Seq<char>)| answered_correctly(answers, item)
}

/// Number of key items answered correctly.
pub open spec fn mcq_score(key: Seq<(int, Seq<char>)>, answers: Seq<(i64, Seq<char>)>) -> nat {
    key.filter(correct_pred(answers)).len()
}

fn latest_answer(answers: &Vec<(i64, String)>, q: i64) -> (r: Option<&String>)
    ensures
        match r {
            Some(a) => answer_for(answers_view(answers@), q) == Some(a@),
            None => answer_for(answers_view(answers@), q) is None,
        },
{
    let mut i = answers.len();
    assert(answers@.take(i as int) =~= answers@);
    while i > 0
        invariant
            i <= answers.len(),
            answer_for(answers_view(answers@), q) == answer_for(
                answers_view(answers@.take(i as int)),
                q,
            ),
        decreases i,
    {
        let ghost v = answers_view(answers@.take(i as int));
        assert(v.last() == (answers@[i - 1].0, answers@[i - 1].1@));
        assert(v.drop_last() =~= answers_view(answers@.take(i - 1)));
        if answers[i - 1].0 == q {
            return Some(&answers[i - 1].1);
        }
        i -= 1;
    }
    assert(answers_view(answers@.take(0)) =~= Seq::<(i64, Seq<char>)>::empty());
    None
}

/// Number of answer-key questions whose latest recorded answer matches the
/// key's choice, ignoring ASCII letter case.
pub fn score_mcq(key: &Vec<AnswerKeyItem>, answers: &Vec<(i64, String)>) -> (r: usize)
    ensures
        r == mcq_score(key_view(key@), answers_view(answers@)),
        r <= key@.len(),
{
    let ghost av = answers_view(answers@);
    let mut n: usize = 0;
    proof {
        reveal(Seq::filter);
        assert(key_view(key@.take(0)) =~= Seq::<(int, Seq<char>)>::empty());
    }
    for i in 0..key.len()
        invariant
            av == answers_view(answers@),
            n == mcq_score(key_view(key@.take(i as int)), av),
            n <= i,
    {
        let ghost before = key_view(key@.take(i as int));
        let ghost item = (key@[i as int].question_number as int, key@[i as int].choice@);
        assert(key_view(key@.take(i + 1)) =~= before.push(item));
        proof {
            before.lemma_filter_push(item, correct_pred(av));
        }
        let correct = match latest_answer(answers, key[i].question_number) {
            Some(a) => text_eq_ignore_ascii_case(a.as_str(), key[i].choice.as_str()),
            None => false,
        };
        assert(item.0 as i64 == key@[i as int].question_number);
        if correct {
            n += 1;
        }
    }
    assert(key@.take(key.len() as int) == key@);
    n
}

/// What submitting an attempt does.
pub enum Submission {
    /// The attempt was no longer active; nothing changes.
    Unchanged,
    /// A multiple-choice attempt with an answer key is graded at once.
    Graded { score: usize, max_score: usize },
    /// Everything else waits for a manual score.
    AwaitingManual,
}

/// Decides how a submitted attempt is graded.
pub fn grade_submission(
    status: &str,
    mode: &str,
    key: &Vec<AnswerKeyItem>,
    answers: &Vec<(i64, String)>,
) -> (r: Submission)
    ensures
        status@ != "active"@ ==> r is Unchanged,
        status@ == "active"@ && mode@ == "mcq"@ && key@.len() > 0 ==> r == (Submission::Graded {
            score: mcq_score(key_view(key@), answers_view(answers@)) as usize,
            max_score: key@.len() as usize,
        }),
        status@ == "active"@ && !(mode@ == "mcq"@ && key@.len() > 0) ==> r is AwaitingManual,
{
    if !text_equals(status, "active") {
        return Submission::Unchanged;
    }
    if text_equals(mode, "mcq") && key.len() > 0 {
        let score = score_mcq(key, answers);
        Submission::Graded { score, max_score: key.len() }
    } else {
        Submission::AwaitingManual
    }
}

/// The score of a graded multiple-choice attempt never exceeds the number
/// of questions in its key.
pub proof fn mcq_score_at_most_key_length(
    key: Seq<(int, Seq<char>)>,
    answers: Seq<(i64, Seq<char>)>,
)
    ensures
        mcq_score(key, answers) <= key.len(),
{
    key.lemma_filter_len(correct_pred(answers));
}

} // verus!

verus! {

// ---------------------------------------------------------------------------
// Library search
// ---------------------------------------------------------------------------

/// The pattern that library documents are searched with: the query without
/// surrounding white space, lower-cased, anywhere in the title or path
/// (`%%`, which the search reads as "everything", for a blank query).
pub fn library_like_pattern(query: &str) -> (r: String)
    ensures
        r@ == seq!['%'] + lowercase(trim_text(query@)) + seq!['%'],
{
    let trimmed = string_of(&trim_chars(&chars_of(query)));
    let lower = lowercase_chars(trimmed.as_str());
    let mut v: Vec<char> = Vec::new();
    v.push('%');
    append_chars(&mut v, &lower);
    v.push('%');
    string_of(&v)
}

// ---------------------------------------------------------------------------
// Paper PDFs
// ---------------------------------------------------------------------------

/// Largest PDF the exam lab opens, in bytes (80 MB).
pub const MAX_PDF_BYTES: u64 = 83886080;

/// Why a library document cannot be opened as a paper PDF.
pub enum PdfError {
    /// The document is not a PDF.
    NotAPdf,
    /// The file is no longer on drive D.
    OffDriveD,
    /// The file is larger than 80 MB.
    TooLarge,
}

/// The error, if any, for a document of type `file_type` whose canonical
/// path is `canonical_path` and whose size is `size` bytes; checked in that
/// order.
pub open spec fn pdf_error(file_type: Seq<char>, canonical_path: Seq<char>, size: int) -> Option<
    PdfError,
> {
    if lowercase(file_type) != "pdf"@ {
        Some(PdfError::NotAPdf)
    } else if !on_drive_d(canonical_path) {
        Some(PdfError::OffDriveD)
    } else if size > 83886080 {
        Some(PdfError::TooLarge)
    } else {
        None
    }
}

/// Checks that a library document may be sent to the exam lab as a PDF.
pub fn check_pdf_resource(file_type: &str, canonical_path: &str, size: u64) -> (r: Result<
    (),
    PdfError,
>)
    ensures
        match pdf_error(file_type@, canonical_path@, size as int) {
            Some(e) => r == Err::<(), PdfError>(e),
            None => r is Ok,
        },
{
    let t = to_lowercase(file_type);
    if !text_equals(t.as_str(), "pdf") {
        return Err(PdfError::NotAPdf);
    }
    if !is_canonical_drive_d(canonical_path) {
        return Err(PdfError::OffDriveD);
    }
    if size > MAX_PDF_BYTES {
        return Err(PdfError::TooLarge);
    }
    Ok(())
}

/// The paper sent to the exam lab: its identifier, its title and its bytes
/// in standard base64.
pub fn pdf_payload(document_id: String, title: String, data: &[u8]) -> (r: ExamPdfPayload)
    requires
        base64_len(data@.len(), true) <= usize::MAX,
    ensures
        r.document_id == document_id,
        r.title == title,
        r.data_base64@ == base64_standard(data@),
{
    ExamPdfPayload { document_id, title, data_base64: encode_base64_standard(data) }
}

} // verus!
