//! How a path is laid out as text in the style of a system: what separates
//! its pieces, the prefix that it may begin with, its root, and where the rest
//! begins.

use vstd::prelude::*;
use crate::text::{ascii_lower, chars_of, lower_char};

verus! {

/// The style of paths that a system has.
#[derive(Clone, Copy, Debug, PartialEq, Eq, Structural)]
pub enum PathStyle {
    /// Slashes separate, and there are no prefixes.
    Slash,
    /// Slashes and backslashes separate, and a path may begin with a prefix
    /// that names a disk, a share or a device.
    Windows,
}

/// A character separates the pieces of a path.
pub open spec fn is_separator(style: PathStyle, c: char) -> bool {
    c == '/' || (style is Windows && c == '\\')
}

/// A character separates the pieces of a path, given whether its prefix has
/// the path taken verbatim: if so, only backslashes do.
pub open spec fn splits(style: PathStyle, verbatim: bool, c: char) -> bool {
    if verbatim {
        c == '\\'
    } else {
        is_separator(style, c)
    }
}

pub(crate) fn splits_at(style: PathStyle, verbatim: bool, c: char) -> (result: bool)
    ensures
        result == splits(style, verbatim, c),
{
    if verbatim {
        c == '\\'
    } else {
        c == '/' || (style == PathStyle::Windows && c == '\\')
    }
}

/// The place of the first character that splits; behind the last one where
/// there is none.
pub open spec fn first_split(style: PathStyle, verbatim: bool, s: Seq<char>) -> int
    decreases s.len(),
{
    if s.len() == 0 || splits(style, verbatim, s[0]) {
        0
    } else {
        1 + first_split(style, verbatim, s.skip(1))
    }
}

pub(crate) proof fn lemma_first_split(style: PathStyle, verbatim: bool, s: Seq<char>)
    ensures
        0 <= first_split(style, verbatim, s) <= s.len(),
    decreases s.len(),
{
    if s.len() > 0 && !splits(style, verbatim, s[0]) {
        lemma_first_split(style, verbatim, s.skip(1));
    }
}

/// The text up to the first character that splits.
pub open spec fn first_piece(style: PathStyle, verbatim: bool, s: Seq<char>) -> Seq<char> {
    s.take(first_split(style, verbatim, s))
}

/// The text behind the first character that splits; nothing where there is
/// none.
pub open spec fn after_first(style: PathStyle, verbatim: bool, s: Seq<char>) -> Seq<char> {
    if first_split(style, verbatim, s) < s.len() {
        s.skip(first_split(style, verbatim, s) + 1)
    } else {
        Seq::empty()
    }
}

/// The kind of a prefix, in the order in which prefixes are ranked.
#[derive(Clone, Copy, Debug, PartialEq, Eq, Structural)]
pub enum PrefixKind {
    /// `\\?\name`
    Verbatim,
    /// `\\?\UNC\server\share`
    VerbatimShare,
    /// `\\?\C:`
    VerbatimDisk,
    /// `\\.\name`
    Device,
    /// `\\server\share`
    Share,
    /// `C:`
    Disk,
}

/// A prefix: its kind and what it names. The letter of a disk counts the same
/// in either case, and is named in lower case.
#[derive(Debug)]
pub struct PathPrefix {
    pub kind: PrefixKind,
    pub first: String,
    pub second: String,
}

/// A prefix as a value.
#[verifier::ext_equal]
pub struct PrefixView {
    pub kind: PrefixKind,
    pub first: Seq<char>,
    pub second: Seq<char>,
}

impl View for PathPrefix {
    type V = PrefixView;

    open spec fn view(&self) -> PrefixView {
        PrefixView { kind: self.kind, first: self.first@, second: self.second@ }
    }
}

/// The kind of prefix has the path taken verbatim.
pub open spec fn is_verbatim(kind: PrefixKind) -> bool {
    kind is Verbatim || kind is VerbatimShare || kind is VerbatimDisk
}

/// A text begins with the letter of a disk and a colon.
pub open spec fn opens_with_disk(s: Seq<char>) -> bool {
    s.len() >= 2 && ('A' <= s[0] <= 'Z' || 'a' <= s[0] <= 'z') && s[1] == ':'
}

/// A path begins with two separators.
pub open spec fn opens_twice(s: Seq<char>) -> bool {
    s.len() >= 2 && is_separator(PathStyle::Windows, s[0]) && is_separator(
        PathStyle::Windows,
        s[1],
    )
}

/// A path begins with `\\?\`, in backslashes.
pub open spec fn opens_verbatim(s: Seq<char>) -> bool {
    s.len() >= 4 && s[0] == '\\' && s[1] == '\\' && s[2] == '?' && s[3] == '\\'
}

/// A path that begins so goes on with `UNC\`.
pub open spec fn names_share(s: Seq<char>) -> bool {
    s.len() >= 8 && s[4] == 'U' && s[5] == 'N' && s[6] == 'C' && is_separator(
        PathStyle::Windows,
        s[7],
    )
}

/// A path that begins so goes on with a disk, and nothing else before the next
/// separator.
pub open spec fn names_disk(s: Seq<char>) -> bool {
    opens_with_disk(s.skip(4)) && (s.len() == 6 || is_separator(PathStyle::Windows, s[6]))
}

/// A path begins with `\\.\`.
pub open spec fn opens_device(s: Seq<char>) -> bool {
    opens_twice(s) && s.len() >= 4 && s[2] == '.' && is_separator(PathStyle::Windows, s[3])
}

/// The name at the start of a text, as a prefix of the given kind.
pub open spec fn one_name(kind: PrefixKind, s: Seq<char>) -> PrefixView {
    PrefixView {
        kind,
        first: first_piece(PathStyle::Windows, is_verbatim(kind), s),
        second: Seq::empty(),
    }
}

/// The two names at the start of a text, as a prefix of the given kind.
pub open spec fn two_names(kind: PrefixKind, s: Seq<char>) -> PrefixView {
    let verbatim = is_verbatim(kind);
    PrefixView {
        kind,
        first: first_piece(PathStyle::Windows, verbatim, s),
        second: first_piece(
            PathStyle::Windows,
            verbatim,
            after_first(PathStyle::Windows, verbatim, s),
        ),
    }
}

/// The disk with the given letter, as a prefix of the given kind.
pub open spec fn disk_name(kind: PrefixKind, letter: char) -> PrefixView {
    PrefixView { kind, first: seq![ascii_lower(letter)], second: Seq::empty() }
}

/// The prefix of a path, if it has one.
pub open spec fn prefix(style: PathStyle, path: Seq<char>) -> Option<PrefixView> {
    if style is Slash {
        None
    } else if opens_verbatim(path) {
        if names_share(path) {
            Some(two_names(PrefixKind::VerbatimShare, path.skip(8)))
        } else if names_disk(path) {
            Some(disk_name(PrefixKind::VerbatimDisk, path[4]))
        } else {
            Some(one_name(PrefixKind::Verbatim, path.skip(4)))
        }
    } else if opens_device(path) {
        Some(one_name(PrefixKind::Device, path.skip(4)))
    } else if opens_twice(path) {
        let share = two_names(PrefixKind::Share, path.skip(2));
        if share.first.len() > 0 && share.second.len() > 0 {
            Some(share)
        } else {
            None
        }
    } else if opens_with_disk(path) {
        Some(disk_name(PrefixKind::Disk, path[0]))
    } else {
        None
    }
}

/// How much of a path its prefix takes up.
pub open spec fn prefix_len(prefix: Option<PrefixView>) -> int {
    match prefix {
        Some(prefix) => {
            let names = prefix.first.len() + (if prefix.second.len() > 0 {
                1 + prefix.second.len() as int
            } else {
                0
            });
            match prefix.kind {
                PrefixKind::Verbatim => 4 + names,
                PrefixKind::VerbatimShare => 8 + names,
                PrefixKind::VerbatimDisk => 6,
                PrefixKind::Device => 4 + names,
                PrefixKind::Share => 2 + names,
                PrefixKind::Disk => 2,
            }
        },
        None => 0,
    }
}

/// A prefix is no longer than its path.
pub proof fn lemma_prefix_fits(style: PathStyle, path: Seq<char>)
    ensures
        0 <= prefix_len(prefix(style, path)) <= path.len(),
{
    match prefix(style, path) {
        Some(found) => {
            let verbatim = is_verbatim(found.kind);
            let from: int = match found.kind {
                PrefixKind::VerbatimShare => 8,
                PrefixKind::Share => 2,
                _ => 4,
            };
            if !(found.kind is Disk) {
                let s = path.skip(from);
                lemma_first_split(PathStyle::Windows, verbatim, s);
                lemma_first_split(
                    PathStyle::Windows,
                    verbatim,
                    after_first(PathStyle::Windows, verbatim, s),
                );
            }
        },
        None => {},
    }
}

/// The path is taken verbatim.
pub open spec fn taken_verbatim(prefix: Option<PrefixView>) -> bool {
    prefix matches Some(prefix) && is_verbatim(prefix.kind)
}

/// A separator stands for the root behind the prefix.
pub open spec fn is_rooted(style: PathStyle, path: Seq<char>) -> bool {
    let at = prefix_len(prefix(style, path));
    at < path.len() && is_separator(style, path[at])
}

/// A prefix that names no disk stands for a root, too.
pub open spec fn implies_root(prefix: Option<PrefixView>) -> bool {
    prefix matches Some(prefix) && !(prefix.kind is Disk)
}

/// The path begins, behind its prefix, with a dot that names the directory
/// itself.
pub open spec fn is_dotted(style: PathStyle, path: Seq<char>) -> bool {
    let at = prefix_len(prefix(style, path));
    &&& !is_rooted(style, path)
    &&& !implies_root(prefix(style, path))
    &&& at < path.len()
    &&& path[at] == '.'
    &&& at + 1 == path.len() || is_separator(style, path[at + 1])
}

/// The place at which the names of a path begin: behind its prefix, its root
/// and a leading dot.
pub open spec fn body_start(style: PathStyle, path: Seq<char>) -> int {
    prefix_len(prefix(style, path)) + (if is_rooted(style, path) {
        1int
    } else {
        0
    }) + (if is_dotted(style, path) {
        1int
    } else {
        0
    })
}

/// How a path is laid out.
#[derive(Debug)]
pub struct PathLayout {
    pub prefix: Option<PathPrefix>,
    pub prefix_len: usize,
    pub verbatim: bool,
    pub rooted: bool,
    pub dotted: bool,
    pub start: usize,
}

/// The view of an optional prefix.
pub open spec fn opt_prefix(prefix: Option<PathPrefix>) -> Option<PrefixView> {
    match prefix {
        Some(prefix) => Some(prefix@),
        None => None,
    }
}

impl PathLayout {
    /// It is the layout of a path.
    pub open spec fn of(self, style: PathStyle, path: Seq<char>) -> bool {
        &&& opt_prefix(self.prefix) == prefix(style, path)
        &&& self.prefix_len == prefix_len(prefix(style, path))
        &&& self.verbatim == taken_verbatim(prefix(style, path))
        &&& self.rooted == is_rooted(style, path)
        &&& self.dotted == is_dotted(style, path)
        &&& self.start == body_start(style, path)
        &&& self.prefix_len <= self.start <= path.len()
    }
}

/// The end of the piece that begins at a place.
fn piece_end(chars: &Vec<char>, from: usize, verbatim: bool) -> (result: usize)
    requires
        from <= chars@.len(),
    ensures
        from <= result <= chars@.len(),
        result == from + first_split(PathStyle::Windows, verbatim, chars@.skip(from as int)),
{
    let mut at: usize = from;
    while at < chars.len() && !splits_at(PathStyle::Windows, verbatim, chars[at])
        invariant
            from <= at <= chars@.len(),
            at - from + first_split(PathStyle::Windows, verbatim, chars@.skip(at as int))
                == first_split(PathStyle::Windows, verbatim, chars@.skip(from as int)),
        decreases chars@.len() - at,
    {
        assert(chars@.skip(at as int)[0] == chars@[at as int]);
        assert(chars@.skip(at as int).skip(1) =~= chars@.skip(at + 1));
        at += 1;
    }
    assert(at < chars@.len() ==> chars@.skip(at as int)[0] == chars@[at as int]);
    at
}

fn read_one_name(path: &str, chars: &Vec<char>, from: usize, kind: PrefixKind) -> (result:
    PathPrefix)
    requires
        chars@ == path@,
        from <= path@.len(),
    ensures
        result@ == one_name(kind, path@.skip(from as int)),
{
    let verbatim = matches!(
        kind,
        PrefixKind::Verbatim | PrefixKind::VerbatimShare | PrefixKind::VerbatimDisk
    );
    let end: usize = piece_end(chars, from, verbatim);
    let result = PathPrefix {
        kind,
        first: path.substring_char(from, end).to_owned(),
        second: String::new(),
    };
    assert(result@ =~= one_name(kind, path@.skip(from as int)));
    result
}

fn read_two_names(path: &str, chars: &Vec<char>, from: usize, kind: PrefixKind) -> (result:
    PathPrefix)
    requires
        chars@ == path@,
        from <= path@.len(),
    ensures
        result@ == two_names(kind, path@.skip(from as int)),
{
    let verbatim = matches!(
        kind,
        PrefixKind::Verbatim | PrefixKind::VerbatimShare | PrefixKind::VerbatimDisk
    );
    let end: usize = piece_end(chars, from, verbatim);
    let next: usize = if end < chars.len() {
        end + 1
    } else {
        end
    };
    let last: usize = piece_end(chars, next, verbatim);
    let ghost s = path@.skip(from as int);
    assert(after_first(PathStyle::Windows, verbatim, s) =~= path@.skip(next as int));
    let result = PathPrefix {
        kind,
        first: path.substring_char(from, end).to_owned(),
        second: path.substring_char(next, last).to_owned(),
    };
    assert(result@ =~= two_names(kind, s));
    result
}

fn read_disk(letter: char, kind: PrefixKind) -> (result: PathPrefix)
    ensures
        result@ == disk_name(kind, letter),
{
    let mut first = String::new();
    first.push(lower_char(letter));
    let result = PathPrefix { kind, first, second: String::new() };
    assert(result@ =~= disk_name(kind, letter));
    result
}

fn disk_at(chars: &Vec<char>, from: usize) -> (result: bool)
    requires
        from <= chars@.len(),
    ensures
        result == opens_with_disk(chars@.skip(from as int)),
{
    chars.len() - from >= 2 && (('A' <= chars[from] && chars[from] <= 'Z') || ('a' <= chars[from]
        && chars[from] <= 'z')) && chars[from + 1] == ':'
}

/// The prefix of a path, if it has one.
pub fn read_prefix(style: PathStyle, path: &str) -> (result: Option<PathPrefix>)
    ensures
        opt_prefix(result) == prefix(style, path@),
{
    if style == PathStyle::Slash {
        return None;
    }
    let chars = chars_of(path);
    let len: usize = chars.len();
    let windows = PathStyle::Windows;
    assert(path@.skip(0) =~= path@);
    if len >= 4 && chars[0] == '\\' && chars[1] == '\\' && chars[2] == '?' && chars[3] == '\\' {
        if len >= 8 && chars[4] == 'U' && chars[5] == 'N' && chars[6] == 'C' && splits_at(
            windows,
            false,
            chars[7],
        ) {
            return Some(read_two_names(path, &chars, 8, PrefixKind::VerbatimShare));
        }
        if disk_at(&chars, 4) && (len == 6 || splits_at(windows, false, chars[6])) {
            return Some(read_disk(chars[4], PrefixKind::VerbatimDisk));
        }
        return Some(read_one_name(path, &chars, 4, PrefixKind::Verbatim));
    }
    if len >= 2 && splits_at(windows, false, chars[0]) && splits_at(windows, false, chars[1]) {
        if len >= 4 && chars[2] == '.' && splits_at(windows, false, chars[3]) {
            return Some(read_one_name(path, &chars, 4, PrefixKind::Device));
        }
        let share = read_two_names(path, &chars, 2, PrefixKind::Share);
        if share.first.as_str().unicode_len() > 0 && share.second.as_str().unicode_len() > 0 {
            return Some(share);
        }
        return None;
    }
    if disk_at(&chars, 0) {
        return Some(read_disk(chars[0], PrefixKind::Disk));
    }
    None
}

/// How a path is laid out.
pub fn read_layout(style: PathStyle, path: &str) -> (result: PathLayout)
    ensures
        result.of(style, path@),
{
    let chars = chars_of(path);
    let total: usize = chars.len();
    let found = read_prefix(style, path);
    proof {
        lemma_prefix_fits(style, path@);
        assert(prefix_len(opt_prefix(found)) <= total);
    }
    let (len, verbatim, implied): (usize, bool, bool) = match &found {
        Some(prefix) => {
            assert(prefix@ == opt_prefix(found)->0);
            let mut names: usize = 0;
            match prefix.kind {
                PrefixKind::VerbatimDisk | PrefixKind::Disk => {},
                _ => {
                    names = prefix.first.as_str().unicode_len();
                    let second: usize = prefix.second.as_str().unicode_len();
                    if second > 0 {
                        names = names + 1 + second;
                    }
                },
            }
            match prefix.kind {
                PrefixKind::Verbatim => (4 + names, true, true),
                PrefixKind::VerbatimShare => (8 + names, true, true),
                PrefixKind::VerbatimDisk => (6, true, true),
                PrefixKind::Device => (4 + names, false, true),
                PrefixKind::Share => (2 + names, false, true),
                PrefixKind::Disk => (2, false, false),
            }
        },
        None => (0, false, false),
    };
    let rooted = len < total && splits_at(style, false, chars[len]);
    let dotted = !rooted && !implied && len < total && chars[len] == '.' && (len + 1 == total
        || splits_at(style, false, chars[len + 1]));
    let mut start: usize = len;
    if rooted {
        start = start + 1;
    }
    if dotted {
        start = start + 1;
    }
    PathLayout { prefix: found, prefix_len: len, verbatim, rooted, dotted, start }
}

/// Slashes separate in either style, backslashes in that of Windows only, and
/// nothing else does. In a path that is taken verbatim only backslashes split.
pub proof fn lemma_what_separates(style: PathStyle, c: char)
    ensures
        is_separator(style, '/'),
        is_separator(PathStyle::Windows, '\\'),
        !is_separator(PathStyle::Slash, '\\'),
        c != '/' && c != '\\' ==> !is_separator(style, c),
        splits(style, false, c) <==> is_separator(style, c),
        splits(style, true, c) <==> c == '\\',
{
}

/// The first piece goes up to the first character that splits, which it does
/// not hold, and the rest begins behind that character.
pub proof fn lemma_first_piece_up_to_the_split(
    style: PathStyle,
    verbatim: bool,
    piece: Seq<char>,
    split: char,
    rest: Seq<char>,
)
    requires
        splits(style, verbatim, split),
        forall|i: int| 0 <= i < piece.len() ==> !splits(style, verbatim, #[trigger] piece[i]),
    ensures
        first_piece(style, verbatim, piece) == piece,
        after_first(style, verbatim, piece).len() == 0,
        first_piece(style, verbatim, piece + seq![split] + rest) == piece,
        after_first(style, verbatim, piece + seq![split] + rest) == rest,
{
    let all = piece + seq![split] + rest;
    lemma_first_split_is(style, verbatim, all, piece.len() as int);
    lemma_first_split_is(style, verbatim, piece, piece.len() as int);
    assert(all.take(piece.len() as int) =~= piece);
    assert(all.skip(piece.len() as int + 1) =~= rest);
    assert(piece.take(piece.len() as int) =~= piece);
}

proof fn lemma_first_split_is(style: PathStyle, verbatim: bool, s: Seq<char>, at: int)
    requires
        0 <= at <= s.len(),
        at < s.len() ==> splits(style, verbatim, s[at]),
        forall|i: int| 0 <= i < at ==> !splits(style, verbatim, #[trigger] s[i]),
    ensures
        first_split(style, verbatim, s) == at,
    decreases s.len(),
{
    if at > 0 {
        let rest = s.skip(1);
        assert forall|i: int| 0 <= i < at - 1 implies !splits(style, verbatim, #[trigger] rest[i]) by {
            assert(rest[i] == s[i + 1]);
        }
        assert(!splits(style, verbatim, s[0]));
        lemma_first_split_is(style, verbatim, rest, at - 1);
    }
}

/// A letter with a colon names a disk, the same one in either case, and takes
/// two characters. In the style with slashes alone no path has a prefix.
pub proof fn lemma_disk_prefix(letter: char, rest: Seq<char>)
    requires
        'A' <= letter <= 'Z' || 'a' <= letter <= 'z',
    ensures
        ({
            let path = seq![letter, ':'] + rest;
            let found = prefix(PathStyle::Windows, path);
            &&& found is Some
            &&& found->0.kind is Disk
            &&& found->0.first == seq![ascii_lower(letter)]
            &&& prefix_len(found) == 2
            &&& !taken_verbatim(found)
            &&& is_rooted(PathStyle::Windows, path) <==> rest.len() > 0 && (rest[0] == '\\'
                || rest[0] == '/')
        }),
        forall|path: Seq<char>| (#[trigger] prefix(PathStyle::Slash, path)) is None,
        prefix_len(None) == 0,
{
    let path = seq![letter, ':'] + rest;
    assert(path[0] == letter && path[1] == ':');
    if rest.len() > 0 {
        assert(path[2] == rest[0]);
    }
}

/// Two backslashes with a server and a share behind them name that share, and
/// the prefix takes up all of it.
pub proof fn lemma_share_prefix(server: Seq<char>, share: Seq<char>, rest: Seq<char>)
    requires
        server.len() > 0,
        share.len() > 0,
        server != seq!['?'],
        server != seq!['.'],
        forall|i: int|
            0 <= i < server.len() ==> !is_separator(PathStyle::Windows, #[trigger] server[i]),
        forall|i: int|
            0 <= i < share.len() ==> !is_separator(PathStyle::Windows, #[trigger] share[i]),
        rest.len() == 0 || is_separator(PathStyle::Windows, rest[0]),
    ensures
        ({
            let path = seq!['\\', '\\'] + (server + seq!['\\'] + (share + rest));
            let found = prefix(PathStyle::Windows, path);
            &&& found is Some
            &&& found->0.kind is Share
            &&& found->0.first == server
            &&& found->0.second == share
            &&& prefix_len(found) == 3 + server.len() + share.len()
            &&& !taken_verbatim(found)
        }),
{
    let windows = PathStyle::Windows;
    let body = server + seq!['\\'] + (share + rest);
    let path = seq!['\\', '\\'] + body;
    assert(path[0] == '\\' && path[1] == '\\');
    assert(path[2] == server[0]);
    assert(!opens_verbatim(path) && !opens_device(path)) by {
        if server.len() == 1 {
            assert(server =~= seq![server[0]]);
        } else {
            assert(path[3] == server[1]);
        }
    }
    assert(path.skip(2) =~= body);
    lemma_first_piece_up_to_the_split(windows, false, server, '\\', share + rest);
    if rest.len() == 0 {
        assert(share + rest =~= share);
        lemma_first_piece_up_to_the_split(windows, false, share, '\\', rest);
    } else {
        assert(share + rest =~= share + seq![rest[0]] + rest.skip(1));
        lemma_first_piece_up_to_the_split(windows, false, share, rest[0], rest.skip(1));
    }
}

/// A path that begins with two backslashes, a question mark and a backslash is
/// taken verbatim, and any other is not; one that begins with a dot in their
/// middle names a device.
pub proof fn lemma_verbatim_and_device_prefixes(path: Seq<char>)
    ensures
        opens_verbatim(path) ==> taken_verbatim(prefix(PathStyle::Windows, path)),
        taken_verbatim(prefix(PathStyle::Windows, path)) ==> path.len() >= 4 && path[0] == '\\'
            && path[1] == '\\' && path[2] == '?' && path[3] == '\\',
        path.len() >= 4 && path[0] == '\\' && path[1] == '\\' && path[2] == '.' && path[3]
            == '\\' ==> prefix(PathStyle::Windows, path) is Some && prefix(
            PathStyle::Windows,
            path,
        )->0.kind is Device && prefix(PathStyle::Windows, path)->0.first == first_piece(
            PathStyle::Windows,
            false,
            path.skip(4),
        ),
        opens_verbatim(path) && names_disk(path) && !names_share(path) ==> prefix(
            PathStyle::Windows,
            path,
        )->0.kind is VerbatimDisk && prefix_len(prefix(PathStyle::Windows, path)) == 6,
        opens_verbatim(path) && names_share(path) ==> prefix(PathStyle::Windows, path)->0.kind
            is VerbatimShare,
        is_verbatim(PrefixKind::Verbatim) && is_verbatim(PrefixKind::VerbatimShare) && is_verbatim(
            PrefixKind::VerbatimDisk,
        ),
        !is_verbatim(PrefixKind::Device) && !is_verbatim(PrefixKind::Share) && !is_verbatim(
            PrefixKind::Disk,
        ),
{
}

/// In the style with slashes a path has a root where it begins with one, and a
/// leading dot where it begins with one that stands alone; the names begin
/// behind these.
pub proof fn lemma_where_names_begin(path: Seq<char>)
    ensures
        ({
            let slash = PathStyle::Slash;
            let rooted = path.len() > 0 && path[0] == '/';
            let dotted = path.len() > 0 && path[0] == '.' && (path.len() == 1 || path[1] == '/');
            &&& is_rooted(slash, path) <==> rooted
            &&& is_dotted(slash, path) <==> dotted
            &&& body_start(slash, path) == (if rooted || dotted {
                1int
            } else {
                0
            })
        }),
{
}

} // verus!
