//! Windows path rules, read as the standard library reads them on Windows: a
//! path's prefix and components, which drive it is on, and its file name.
use vstd::prelude::*;
use crate::text::{chars_of, split_by, split_chars, string_of, views, Separator};

verus! {

pub open spec fn is_drive_d_letter(c: char) -> bool {
    c == 'D' || c == 'd'
}

pub open spec fn is_path_separator(c: char) -> bool {
    c == '\\' || c == '/'
}

/// A separator between components: only `\` in a verbatim path, `\` or `/`
/// in any other.
pub open spec fn is_sep_for(c: char, verbatim: bool) -> bool {
    c == '\\' || (!verbatim && c == '/')
}

/// The index of the first separator in `s`, or -1 when it has none.
pub open spec fn first_sep(s: Seq<char>, verbatim: bool) -> int
    decreases s.len(),
{
    if s.len() == 0 {
        -1
    } else if is_sep_for(s[0], verbatim) {
        0
    } else {
        let k = first_sep(s.drop_first(), verbatim);
        if k < 0 {
            -1
        } else {
            k + 1
        }
    }
}

/// `s` cut at its first separator: the text before it and the text after it;
/// all of `s` and nothing when it has no separator.
pub open spec fn next_component(s: Seq<char>, verbatim: bool) -> (Seq<char>, Seq<char>) {
    let k = first_sep(s, verbatim);
    if k < 0 {
        (s, Seq::empty())
    } else {
        (s.take(k), s.skip(k + 1))
    }
}

pub open spec fn is_ascii_letter(c: char) -> bool {
    ('a' <= c <= 'z') || ('A' <= c <= 'Z')
}

pub open spec fn ascii_upper(c: char) -> char {
    if 'a' <= c <= 'z' {
        ((c as int) - 32) as char
    } else {
        c
    }
}

/// The drive a text starts with (`C:` and the like), its letter upper-cased.
pub open spec fn drive_letter(s: Seq<char>) -> Option<char> {
    if s.len() >= 2 && is_ascii_letter(s[0]) && s[1] == ':' {
        Some(ascii_upper(s[0]))
    } else {
        None
    }
}

/// The prefix of a Windows path, as `std::path::Prefix` tells them apart.
pub enum WinPrefix {
    /// `\\?\name`
    Verbatim(Seq<char>),
    /// `\\?\UNC\server\share`
    VerbatimUNC(Seq<char>, Seq<char>),
    /// `\\?\C:`, with the letter upper-cased
    VerbatimDisk(char),
    /// `\\.\device`
    DeviceNS(Seq<char>),
    /// `\\server\share`
    UNC(Seq<char>, Seq<char>),
    /// `C:`, with the letter upper-cased
    Disk(char),
}

/// The prefix that a Windows path starts with, read as the standard library
/// reads it: a path starting with two separators is verbatim when its first
/// four characters are exactly `\\?\` (then `UNC` and a separator make a
/// verbatim UNC prefix, and a drive followed by `\` or nothing a verbatim
/// disk), a device when the third is `.` and the fourth a separator, and
/// otherwise a UNC prefix when both server and share are non-empty; any other
/// path has a disk prefix when it starts with a letter and `:`.
pub open spec fn parse_prefix(p: Seq<char>) -> Option<WinPrefix> {
    if p.len() >= 2 && is_path_separator(p[0]) && is_path_separator(p[1]) {
        if p.len() >= 4 && p[0] == '\\' && p[1] == '\\' && p[2] == '?' && p[3] == '\\' {
            if p.len() >= 8 && p[4] == 'U' && p[5] == 'N' && p[6] == 'C' && is_path_separator(p[7]) {
                let server = next_component(p.skip(8), true);
                Some(WinPrefix::VerbatimUNC(server.0, next_component(server.1, true).0))
            } else {
                let rest = p.skip(4);
                if (rest.len() <= 2 || rest[2] == '\\') && drive_letter(rest) is Some {
                    Some(WinPrefix::VerbatimDisk(drive_letter(rest)->0))
                } else {
                    Some(WinPrefix::Verbatim(next_component(rest, true).0))
                }
            }
        } else if p.len() >= 4 && p[2] == '.' && is_path_separator(p[3]) {
            Some(WinPrefix::DeviceNS(next_component(p.skip(4), false).0))
        } else {
            let server = next_component(p.skip(2), false);
            let share = next_component(server.1, false).0;
            if server.0.len() > 0 && share.len() > 0 {
                Some(WinPrefix::UNC(server.0, share))
            } else {
                None
            }
        }
    } else {
        match drive_letter(p) {
            Some(d) => Some(WinPrefix::Disk(d)),
            None => None,
        }
    }
}

/// How many characters of the path a prefix takes up.
pub open spec fn prefix_len(x: WinPrefix) -> nat {
    match x {
        WinPrefix::Verbatim(s) => 4 + s.len(),
        WinPrefix::VerbatimUNC(a, b) => 8 + a.len() + if b.len() > 0 {
            1 + b.len()
        } else {
            0
        },
        WinPrefix::VerbatimDisk(_) => 6,
        WinPrefix::DeviceNS(s) => 4 + s.len(),
        WinPrefix::UNC(a, b) => 2 + a.len() + if b.len() > 0 {
            1 + b.len()
        } else {
            0
        },
        WinPrefix::Disk(_) => 2,
    }
}

pub open spec fn is_verbatim(x: WinPrefix) -> bool {
    x is Verbatim || x is VerbatimUNC || x is VerbatimDisk
}

/// A component of a Windows path, as `std::path::Component` has it.
pub enum WinComponent {
    Prefix(WinPrefix),
    RootDir,
    CurDir,
    ParentDir,
    Normal(Seq<char>),
}

/// A piece between separators that is a component: not empty, and not `.`
/// outside a verbatim path.
pub open spec fn kept_piece(verbatim: bool) -> spec_fn(Seq<char>) -> bool {
    |c: Seq<char>| c.len() > 0 && (verbatim || c != seq!['.'])
}

pub open spec fn piece_component(c: Seq<char>) -> WinComponent {
    if c == seq!['.'] {
        WinComponent::CurDir
    } else if c == seq!['.', '.'] {
        WinComponent::ParentDir
    } else {
        WinComponent::Normal(c)
    }
}

/// The components that the text after the prefix and root holds.
pub open spec fn body_components(text: Seq<char>, verbatim: bool) -> Seq<WinComponent> {
    split_by(text, if verbatim {
        Separator::Backslash
    } else {
        Separator::PathSeparator
    }).filter(kept_piece(verbatim)).map_values(|c: Seq<char>| piece_component(c))
}

/// A relative path without prefix that starts with `.` alone keeps it as its
/// first component.
pub open spec fn starts_with_cur_dir(rest: Seq<char>) -> bool {
    rest.len() > 0 && rest[0] == '.' && (rest.len() == 1 || is_path_separator(rest[1]))
}

/// The components of a Windows path, as `Path::components` yields them: the
/// prefix, then the root (written, or implied by a prefix that is neither a
/// disk nor verbatim), or a leading `.`, then the named pieces.
pub open spec fn win_components(p: Seq<char>) -> Seq<WinComponent> {
    match parse_prefix(p) {
        Some(x) => {
            let rest = p.skip(prefix_len(x) as int);
            let v = is_verbatim(x);
            if rest.len() > 0 && is_path_separator(rest[0]) {
                seq![WinComponent::Prefix(x), WinComponent::RootDir] + body_components(rest.drop_first(), v)
            } else if !(x is Disk) && !v {
                seq![WinComponent::Prefix(x), WinComponent::RootDir] + body_components(rest, v)
            } else {
                seq![WinComponent::Prefix(x)] + body_components(rest, v)
            }
        },
        None => {
            if p.len() > 0 && is_path_separator(p[0]) {
                seq![WinComponent::RootDir] + body_components(p.drop_first(), false)
            } else if starts_with_cur_dir(p) {
                seq![WinComponent::CurDir] + body_components(p.drop_first(), false)
            } else {
                body_components(p, false)
            }
        },
    }
}

/// The prefix of `p` is drive D, plain (`D:`) or verbatim (`\\?\D:`).
pub open spec fn on_drive_d(p: Seq<char>) -> bool {
    match parse_prefix(p) {
        Some(WinPrefix::Disk(d)) => d == 'D',
        Some(WinPrefix::VerbatimDisk(d)) => d == 'D',
        _ => false,
    }
}

/// Accepts normal and verbatim Windows paths only when their drive is D.
/// Callers canonicalize first, so that `..`, links and relative drive paths
/// are already resolved.
pub fn is_canonical_drive_d(path: &str) -> (r: bool)
    ensures
        r == on_drive_d(path@),
{
    let p = chars_of(path);
    match parse_prefix_exec(&p) {
        Some((part, _)) => (part.kind == 2 || part.kind == 5) && part.first.len() == 1
            && part.first[0] == 'D',
        None => false,
    }
}

/// Only drive D passes: a path whose first character is another drive letter
/// followed by `:` is refused, as is every path that starts with a separator
/// but is not the verbatim form of drive D.
pub proof fn only_drive_d_is_accepted(p: Seq<char>)
    ensures
        p.len() >= 2 && p[1] == ':' && !is_drive_d_letter(p[0]) && p[0] != '\\' ==> !on_drive_d(p),
        p.len() >= 1 && is_path_separator(p[0]) && !(p.len() >= 4 && p[1] == '\\' && p[2] == '?'
            && p[3] == '\\') ==> !on_drive_d(p),
{
}

/// The last component of a path when it is a name, as `Path::file_name`
/// gives it; none for a path that ends in a prefix, a root, `.` or `..`.
pub open spec fn file_name(p: Seq<char>) -> Option<Seq<char>> {
    let cs = win_components(p);
    if cs.len() == 0 {
        None
    } else {
        match cs.last() {
            WinComponent::Normal(s) => Some(s),
            _ => None,
        }
    }
}

} // verus!

verus! {

/// Index of the last `c` in `s`, or -1.
pub open spec fn last_index_of(s: Seq<char>, c: char) -> int
    decreases s.len(),
{
    if s.len() == 0 {
        -1
    } else if s.last() == c {
        s.len() - 1
    } else {
        last_index_of(s.drop_last(), c)
    }
}

/// The extension of a file name, as `Path::extension` gives it: the text
/// after the last `.`, unless that dot starts the name (or the name is `..`).
pub open spec fn name_extension(name: Seq<char>) -> Option<Seq<char>> {
    let k = last_index_of(name, '.');
    if name == seq!['.', '.'] || k <= 0 {
        None
    } else {
        Some(name.subrange(k + 1, name.len() as int))
    }
}

/// The stem of a file name, as `Path::file_stem` gives it.
pub open spec fn name_stem(name: Seq<char>) -> Seq<char> {
    let k = last_index_of(name, '.');
    if name == seq!['.', '.'] || k <= 0 {
        name
    } else {
        name.subrange(0, k)
    }
}

/// The extension of the file a path names.
pub open spec fn path_extension(p: Seq<char>) -> Option<Seq<char>> {
    match file_name(p) {
        Some(n) => name_extension(n),
        None => None,
    }
}

/// The stem of the file a path names.
pub open spec fn path_stem(p: Seq<char>) -> Option<Seq<char>> {
    match file_name(p) {
        Some(n) => Some(name_stem(n)),
        None => None,
    }
}

/// A path component reduced to the keys that order it: the position of its
/// kind among the variants of `Component` (a prefix by the position of its
/// own kind among those of `Prefix`), then its texts.
pub struct PathPart {
    pub kind: u8,
    pub first: Vec<char>,
    pub second: Vec<char>,
}

pub open spec fn part_view(x: PathPart) -> (int, Seq<char>, Seq<char>) {
    (x.kind as int, x.first@, x.second@)
}

pub open spec fn parts_view(v: Seq<PathPart>) -> Seq<(int, Seq<char>, Seq<char>)> {
    v.map_values(|x: PathPart| part_view(x))
}

/// The order keys of a component. `Component` and `Prefix` order their
/// values by variant first, in the order they are declared, then by their
/// fields in turn; a drive letter is upper-cased already.
pub open spec fn component_key(c: WinComponent) -> (int, Seq<char>, Seq<char>) {
    match c {
        WinComponent::Prefix(x) => match x {
            WinPrefix::Verbatim(s) => (0, s, Seq::empty()),
            WinPrefix::VerbatimUNC(a, b) => (1, a, b),
            WinPrefix::VerbatimDisk(d) => (2, seq![d], Seq::empty()),
            WinPrefix::DeviceNS(s) => (3, s, Seq::empty()),
            WinPrefix::UNC(a, b) => (4, a, b),
            WinPrefix::Disk(d) => (5, seq![d], Seq::empty()),
        },
        WinComponent::RootDir => (6, Seq::empty(), Seq::empty()),
        WinComponent::CurDir => (7, Seq::empty(), Seq::empty()),
        WinComponent::ParentDir => (8, Seq::empty(), Seq::empty()),
        WinComponent::Normal(s) => (9, s, Seq::empty()),
    }
}

/// The order keys of the components of a path.
pub open spec fn path_keys(p: Seq<char>) -> Seq<(int, Seq<char>, Seq<char>)> {
    win_components(p).map_values(|c: WinComponent| component_key(c))
}

pub open spec fn piece_key(c: Seq<char>) -> (int, Seq<char>, Seq<char>) {
    component_key(piece_component(c))
}

proof fn lemma_first_sep(s: Seq<char>, v: bool, i: int)
    requires
        0 <= i <= s.len(),
        forall|j: int| 0 <= j < i ==> !is_sep_for(#[trigger] s[j], v),
    ensures
        i < s.len() && is_sep_for(s[i], v) ==> first_sep(s, v) == i,
        i == s.len() ==> first_sep(s, v) == -1,
    decreases i,
{
    if i > 0 {
        assert forall|j: int| 0 <= j < i - 1 implies !is_sep_for(#[trigger] s.drop_first()[j], v) by {
            assert(s.drop_first()[j] == s[j + 1]);
        }
        lemma_first_sep(s.drop_first(), v, i - 1);
    }
}

fn slice_chars(s: &Vec<char>, from: usize, to: usize) -> (r: Vec<char>)
    requires
        from <= to <= s.len(),
    ensures
        r@ == s@.subrange(from as int, to as int),
{
    let mut r: Vec<char> = Vec::new();
    for i in from..to
        invariant
            to <= s.len(),
            r@ == s@.subrange(from as int, i as int),
    {
        r.push(s[i]);
        assert(r@ =~= s@.subrange(from as int, i + 1));
    }
    r
}

/// `s` cut at its first separator, as `next_component` describes it.
fn cut_at_separator(s: &Vec<char>, verbatim: bool) -> (r: (Vec<char>, Vec<char>))
    ensures
        r.0@ == next_component(s@, verbatim).0,
        r.1@ == next_component(s@, verbatim).1,
        r.0@.len() <= s@.len(),
        r.1@.len() > 0 ==> r.0@.len() + 1 + r.1@.len() == s@.len(),
{
    let mut i: usize = 0;
    while i < s.len() && !(s[i] == '\\' || (!verbatim && s[i] == '/'))
        invariant
            i <= s.len(),
            forall|j: int| 0 <= j < i ==> !is_sep_for(#[trigger] s@[j], verbatim),
        decreases s.len() - i,
    {
        i += 1;
    }
    proof {
        lemma_first_sep(s@, verbatim, i as int);
    }
    if i < s.len() {
        let head = slice_chars(s, 0, i);
        let tail = slice_chars(s, i + 1, s.len());
        assert(head@ =~= s@.take(i as int));
        assert(tail@ =~= s@.skip(i + 1));
        (head, tail)
    } else {
        let head = slice_chars(s, 0, i);
        assert(head@ =~= s@);
        (head, Vec::new())
    }
}

fn ascii_upper_exec(c: char) -> (r: char)
    ensures
        r == ascii_upper(c),
{
    if 'a' <= c && c <= 'z' {
        let b = (c as u8) - 32;
        b as char
    } else {
        c
    }
}

fn one_char(c: char) -> (r: Vec<char>)
    ensures
        r@ == seq![c],
{
    let mut r: Vec<char> = Vec::new();
    r.push(c);
    assert(r@ =~= seq![c]);
    r
}

/// The prefix of a path with the number of characters it takes up, as
/// `parse_prefix` and `prefix_len` describe them.
pub(crate) fn parse_prefix_exec(p: &Vec<char>) -> (r: Option<(PathPart, usize)>)
    ensures
        match r {
            None => parse_prefix(p@) is None,
            Some(found) => {
                &&& parse_prefix(p@) is Some
                &&& part_view(found.0) == component_key(WinComponent::Prefix(parse_prefix(p@)->0))
                &&& found.1 == prefix_len(parse_prefix(p@)->0)
                &&& found.1 <= p@.len()
            },
        },
{
    let n = p.len();
    if n >= 2 && (p[0] == '\\' || p[0] == '/') && (p[1] == '\\' || p[1] == '/') {
        if n >= 4 && p[0] == '\\' && p[1] == '\\' && p[2] == '?' && p[3] == '\\' {
            if n >= 8 && p[4] == 'U' && p[5] == 'N' && p[6] == 'C' && (p[7] == '\\' || p[7] == '/') {
                let after = slice_chars(p, 8, n);
                assert(after@ =~= p@.skip(8));
                let (server, rest) = cut_at_separator(&after, true);
                let (share, _) = cut_at_separator(&rest, true);
                let len = if share.len() > 0 {
                    8 + server.len() + 1 + share.len()
                } else {
                    8 + server.len()
                };
                Some((PathPart { kind: 1, first: server, second: share }, len))
            } else {
                let rest = slice_chars(p, 4, n);
                assert(rest@ =~= p@.skip(4));
                let m = rest.len();
                if (m <= 2 || rest[2] == '\\') && m >= 2 && (('a' <= rest[0] && rest[0] <= 'z') || (
                'A' <= rest[0] && rest[0] <= 'Z')) && rest[1] == ':' {
                    let d = one_char(ascii_upper_exec(rest[0]));
                    Some((PathPart { kind: 2, first: d, second: Vec::new() }, 6))
                } else {
                    let (name, _) = cut_at_separator(&rest, true);
                    let len = 4 + name.len();
                    Some((PathPart { kind: 0, first: name, second: Vec::new() }, len))
                }
            }
        } else if n >= 4 && p[2] == '.' && (p[3] == '\\' || p[3] == '/') {
            let rest = slice_chars(p, 4, n);
            assert(rest@ =~= p@.skip(4));
            let (name, _) = cut_at_separator(&rest, false);
            let len = 4 + name.len();
            Some((PathPart { kind: 3, first: name, second: Vec::new() }, len))
        } else {
            let after = slice_chars(p, 2, n);
            assert(after@ =~= p@.skip(2));
            let (server, rest) = cut_at_separator(&after, false);
            let (share, _) = cut_at_separator(&rest, false);
            if server.len() > 0 && share.len() > 0 {
                let len = 2 + server.len() + 1 + share.len();
                Some((PathPart { kind: 4, first: server, second: share }, len))
            } else {
                None
            }
        }
    } else if n >= 2 && (('a' <= p[0] && p[0] <= 'z') || ('A' <= p[0] && p[0] <= 'Z')) && p[1]
        == ':' {
        let d = one_char(ascii_upper_exec(p[0]));
        Some((PathPart { kind: 5, first: d, second: Vec::new() }, 2))
    } else {
        None
    }
}

fn piece_part(c: &Vec<char>) -> (r: PathPart)
    ensures
        part_view(r) == piece_key(c@),
{
    if c.len() == 1 && c[0] == '.' {
        assert(c@ =~= seq!['.']);
        PathPart { kind: 7, first: Vec::new(), second: Vec::new() }
    } else if c.len() == 2 && c[0] == '.' && c[1] == '.' {
        assert(c@ =~= seq!['.', '.']);
        PathPart { kind: 8, first: Vec::new(), second: Vec::new() }
    } else {
        assert(c@ != seq!['.']) by {
            if c.len() == 1 {
                assert(c@[0] == c[0]);
            }
        }
        assert(c@ != seq!['.', '.']) by {
            if c.len() == 2 {
                assert(c@[0] == c[0] && c@[1] == c[1]);
            }
        }
        PathPart { kind: 9, first: c.clone(), second: Vec::new() }
    }
}

/// The order keys of the components in the text after a prefix and root.
fn body_parts(text: &Vec<char>, verbatim: bool) -> (r: Vec<PathPart>)
    ensures
        parts_view(r@) == body_components(text@, verbatim).map_values(
            |c: WinComponent| component_key(c),
        ),
{
    let sep = if verbatim {
        Separator::Backslash
    } else {
        Separator::PathSeparator
    };
    let pieces = split_chars(text, &sep);
    let ghost kept = kept_piece(verbatim);
    let mut r: Vec<PathPart> = Vec::new();
    proof {
        reveal(Seq::filter);
        assert(views(pieces@.take(0)) =~= Seq::<Seq<char>>::empty());
        assert(parts_view(r@) =~= Seq::<(int, Seq<char>, Seq<char>)>::empty());
    }
    for i in 0..pieces.len()
        invariant
            kept == kept_piece(verbatim),
            parts_view(r@) == views(pieces@.take(i as int)).filter(kept).map_values(
                |c: Seq<char>| piece_key(c),
            ),
    {
        let ghost before = views(pieces@.take(i as int));
        let ghost piece = pieces@[i as int]@;
        assert(views(pieces@.take(i + 1)) == before.push(piece));
        proof {
            before.lemma_filter_push(piece, kept);
        }
        let c = &pieces[i];
        let dot = c.len() == 1 && c[0] == '.';
        assert(dot == (piece == seq!['.'])) by {
            if c.len() == 1 {
                assert(piece =~= seq![piece[0]]);
            }
        }
        if c.len() > 0 && (verbatim || !dot) {
            let ghost old_r = parts_view(r@);
            let part = piece_part(c);
            r.push(part);
            assert(parts_view(r@) =~= old_r.push(piece_key(piece)));
            assert(before.filter(kept).push(piece).map_values(|c: Seq<char>| piece_key(c))
                =~= before.filter(kept).map_values(|c: Seq<char>| piece_key(c)).push(
                piece_key(piece),
            ));
        }
    }
    assert(pieces@.take(pieces.len() as int) == pieces@);
    let ghost f = views(pieces@).filter(kept);
    assert(body_components(text@, verbatim) == f.map_values(|c: Seq<char>| piece_component(c)));
    assert(f.map_values(|c: Seq<char>| piece_component(c)).map_values(
        |c: WinComponent| component_key(c),
    ) =~= f.map_values(|c: Seq<char>| piece_key(c)));
    r
}

fn root_part() -> (r: PathPart)
    ensures
        part_view(r) == component_key(WinComponent::RootDir),
{
    PathPart { kind: 6, first: Vec::new(), second: Vec::new() }
}

fn cur_dir_part() -> (r: PathPart)
    ensures
        part_view(r) == component_key(WinComponent::CurDir),
{
    PathPart { kind: 7, first: Vec::new(), second: Vec::new() }
}

/// The order keys of the components of a path, as `path_keys` gives them.
pub(crate) fn path_parts(p: &Vec<char>) -> (r: Vec<PathPart>)
    ensures
        parts_view(r@) == path_keys(p@),
{
    let n = p.len();
    let ghost key_of = |c: WinComponent| component_key(c);
    match parse_prefix_exec(p) {
        Some((part, len)) => {
            let ghost x = parse_prefix(p@)->0;
            let verbatim = part.kind <= 2;
            let disk = part.kind == 5;
            assert(verbatim == is_verbatim(x) && disk == (x is Disk));
            let rest = slice_chars(p, len, n);
            assert(rest@ =~= p@.skip(prefix_len(x) as int));
            let mut head: Vec<PathPart> = Vec::new();
            head.push(part);
            if rest.len() > 0 && (rest[0] == '\\' || rest[0] == '/') {
                head.push(root_part());
                let text = slice_chars(&rest, 1, rest.len());
                assert(text@ =~= rest@.drop_first());
                let mut body = body_parts(&text, verbatim);
                let ghost hv = parts_view(head@);
                let ghost bv = parts_view(body@);
                head.append(&mut body);
                assert(parts_view(head@) =~= hv + bv);
                assert((seq![WinComponent::Prefix(x), WinComponent::RootDir] + body_components(
                    rest@.drop_first(),
                    verbatim,
                )).map_values(key_of) =~= hv + bv);
            } else if !disk && !verbatim {
                head.push(root_part());
                let mut body = body_parts(&rest, verbatim);
                let ghost hv = parts_view(head@);
                let ghost bv = parts_view(body@);
                head.append(&mut body);
                assert(parts_view(head@) =~= hv + bv);
                assert((seq![WinComponent::Prefix(x), WinComponent::RootDir] + body_components(
                    rest@,
                    verbatim,
                )).map_values(key_of) =~= hv + bv);
            } else {
                let mut body = body_parts(&rest, verbatim);
                let ghost hv = parts_view(head@);
                let ghost bv = parts_view(body@);
                head.append(&mut body);
                assert(parts_view(head@) =~= hv + bv);
                assert((seq![WinComponent::Prefix(x)] + body_components(rest@, verbatim)).map_values(
                    key_of,
                ) =~= hv + bv);
            }
            head
        },
        None => {
            let mut head: Vec<PathPart> = Vec::new();
            if n > 0 && (p[0] == '\\' || p[0] == '/') {
                head.push(root_part());
                let text = slice_chars(p, 1, n);
                assert(text@ =~= p@.drop_first());
                let mut body = body_parts(&text, false);
                let ghost hv = parts_view(head@);
                let ghost bv = parts_view(body@);
                head.append(&mut body);
                assert(parts_view(head@) =~= hv + bv);
                assert((seq![WinComponent::RootDir] + body_components(p@.drop_first(), false)).map_values(
                    key_of,
                ) =~= hv + bv);
            } else if n > 0 && p[0] == '.' && (n == 1 || p[1] == '\\' || p[1] == '/') {
                head.push(cur_dir_part());
                let text = slice_chars(p, 1, n);
                assert(text@ =~= p@.drop_first());
                let mut body = body_parts(&text, false);
                let ghost hv = parts_view(head@);
                let ghost bv = parts_view(body@);
                head.append(&mut body);
                assert(parts_view(head@) =~= hv + bv);
                assert((seq![WinComponent::CurDir] + body_components(p@.drop_first(), false)).map_values(
                    key_of,
                ) =~= hv + bv);
            } else {
                head = body_parts(p, false);
            }
            head
        },
    }
}

fn file_name_chars(p: &Vec<char>) -> (r: Option<Vec<char>>)
    ensures
        match r {
            Some(n) => file_name(p@) == Some(n@),
            None => file_name(p@) is None,
        },
{
    let parts = path_parts(p);
    let ghost cs = win_components(p@);
    assert(parts_view(parts@).len() == cs.len());
    if parts.len() == 0 {
        return None;
    }
    let last = &parts[parts.len() - 1];
    let ghost c = cs[cs.len() - 1];
    assert(parts_view(parts@)[cs.len() - 1] == part_view(*last));
    assert(part_view(*last) == component_key(c));
    if last.kind == 9 {
        assert(c is Normal);
        Some(last.first.clone())
    } else {
        None
    }
}

fn last_dot(name: &Vec<char>) -> (r: Option<usize>)
    ensures
        match r {
            Some(k) => last_index_of(name@, '.') == k && k < name@.len(),
            None => last_index_of(name@, '.') == -1,
        },
{
    let mut i = name.len();
    assert(name@.take(i as int) =~= name@);
    while i > 0
        invariant
            i <= name.len(),
            last_index_of(name@, '.') == last_index_of(name@.take(i as int), '.'),
        decreases i,
    {
        let ghost t = name@.take(i as int);
        assert(t.drop_last() =~= name@.take(i - 1));
        if name[i - 1] == '.' {
            return Some(i - 1);
        }
        i -= 1;
    }
    None
}

/// The extension and stem of the file that a path names, as
/// `Path::extension` and `Path::file_stem` give them.
pub fn extension_and_stem(path: &str) -> (r: (Option<String>, Option<String>))
    ensures
        match r.0 {
            Some(e) => path_extension(path@) == Some(e@),
            None => path_extension(path@) is None,
        },
        match r.1 {
            Some(s) => path_stem(path@) == Some(s@),
            None => path_stem(path@) is None,
        },
{
    let p = chars_of(path);
    match file_name_chars(&p) {
        None => (None, None),
        Some(name) => {
            let dotdot = name.len() == 2 && name[0] == '.' && name[1] == '.';
            assert(dotdot == (name@ == seq!['.', '.'])) by {
                if name.len() == 2 {
                    assert(name@ =~= seq![name@[0], name@[1]]);
                }
            }
            match last_dot(&name) {
                Some(k) => {
                    if dotdot || k == 0 {
                        (None, Some(string_of(&name)))
                    } else {
                        let mut ext: Vec<char> = Vec::new();
                        let mut stem: Vec<char> = Vec::new();
                        for i in 0..name.len()
                            invariant
                                k < name@.len(),
                                i <= k ==> stem@ == name@.subrange(0, i as int) && ext@.len()
                                    == 0,
                                i > k ==> stem@ == name@.subrange(0, k as int) && ext@
                                    == name@.subrange(k + 1, i as int),
                        {
                            if i < k {
                                stem.push(name[i]);
                                assert(stem@ =~= name@.subrange(0, i + 1));
                            } else if i > k {
                                ext.push(name[i]);
                                assert(ext@ =~= name@.subrange(k + 1, i + 1));
                            } else {
                                assert(ext@ =~= name@.subrange(k + 1, i + 1));
                            }
                        }
                        (Some(string_of(&ext)), Some(string_of(&stem)))
                    }
                },
                None => (None, Some(string_of(&name))),
            }
        },
    }
}

} // verus!
