//! Paths as text, in the style of the system that they belong to: their
//! components, the path one level up, paths below others, and their order.

use vstd::prelude::*;
use crate::path_style::{
    body_start, is_dotted, is_rooted, opt_prefix, prefix, prefix_len, read_layout, splits,
    splits_at, taken_verbatim, PathPrefix, PathStyle, PrefixKind, PrefixView,
};
use crate::sort::{ranks, Ordered};
use crate::text::{
    chars_of, lemma_text_lt_irreflexive, lemma_text_lt_total, lemma_text_lt_transitive, opt_text,
    same_text, text_less, text_lt, texts,
};

verus! {

/// The pieces of a text between the characters that split it, empty ones too.
pub open spec fn pieces(style: PathStyle, verbatim: bool, s: Seq<char>) -> Seq<Seq<char>>
    decreases s.len(),
{
    if s.len() == 0 {
        seq![Seq::empty()]
    } else {
        let before = pieces(style, verbatim, s.drop_last());
        if splits(style, verbatim, s.last()) {
            before.push(Seq::empty())
        } else {
            before.drop_last().push(before.last().push(s.last()))
        }
    }
}

pub proof fn lemma_pieces_not_empty(style: PathStyle, verbatim: bool, s: Seq<char>)
    ensures
        pieces(style, verbatim, s).len() > 0,
    decreases s.len(),
{
    if s.len() > 0 {
        lemma_pieces_not_empty(style, verbatim, s.drop_last());
    }
}

/// A piece that counts: not empty, and, unless the path is taken verbatim, not
/// the directory itself.
pub open spec fn counts(verbatim: bool, piece: Seq<char>) -> bool {
    piece.len() > 0 && (verbatim || piece != seq!['.'])
}

fn piece_counts(verbatim: bool, piece: &str) -> (result: bool)
    ensures
        result == counts(verbatim, piece@),
{
    proof {
        reveal_strlit(".");
        assert("."@ =~= seq!['.']);
    }
    piece.unicode_len() > 0 && (verbatim || !same_text(piece, "."))
}

/// The pieces that count.
pub open spec fn counted_pieces(style: PathStyle, verbatim: bool, s: Seq<char>) -> Seq<Seq<char>> {
    pieces(style, verbatim, s).filter(|piece: Seq<char>| counts(verbatim, piece))
}

/// A name, the directory itself or the directory above, as the text that
/// components are ordered by.
pub open spec fn component_key(piece: Seq<char>) -> Seq<char> {
    if piece == seq!['.'] {
        seq!['\u{2}']
    } else if piece == seq!['.', '.'] {
        seq!['\u{3}']
    } else {
        seq!['\u{4}'] + piece
    }
}

/// The character that stands for a kind of prefix, in the order in which they
/// are ranked.
pub open spec fn kind_mark(kind: PrefixKind) -> char {
    match kind {
        PrefixKind::Verbatim => '0',
        PrefixKind::VerbatimShare => '1',
        PrefixKind::VerbatimDisk => '2',
        PrefixKind::Device => '3',
        PrefixKind::Share => '4',
        PrefixKind::Disk => '5',
    }
}

/// A prefix, as the texts that it is ordered by: its kind, and what it names.
pub open spec fn prefix_keys(prefix: Option<PrefixView>) -> Seq<Seq<char>> {
    match prefix {
        Some(prefix) => seq![
            seq!['\u{0}', kind_mark(prefix.kind)],
            prefix.first,
            prefix.second,
        ],
        None => Seq::empty(),
    }
}

/// The root of a path, as the text that it is ordered by. A prefix that names
/// a share or a device has one even where it is not spelled.
pub open spec fn root_keys(style: PathStyle, path: Seq<char>) -> Seq<Seq<char>> {
    if is_rooted(style, path) || (prefix(style, path) matches Some(prefix) && (prefix.kind is Share
        || prefix.kind is Device)) {
        seq![seq!['\u{1}']]
    } else {
        Seq::empty()
    }
}

/// A leading dot, as the text that it is ordered by.
pub open spec fn dot_keys(style: PathStyle, path: Seq<char>) -> Seq<Seq<char>> {
    if prefix(style, path) is None && is_dotted(style, path) {
        seq![seq!['\u{2}']]
    } else {
        Seq::empty()
    }
}

/// The components of a path, as the texts that they are ordered by: its
/// prefix, its root, a leading dot, and the pieces that count.
pub open spec fn components(style: PathStyle, path: Seq<char>) -> Seq<Seq<char>> {
    prefix_keys(prefix(style, path)) + root_keys(style, path) + dot_keys(style, path)
        + counted_pieces(
        style,
        taken_verbatim(prefix(style, path)),
        path.skip(body_start(style, path)),
    ).map_values(|piece: Seq<char>| component_key(piece))
}

/// The pieces of a text between the characters that split it, empty ones too.
pub fn split_pieces(style: PathStyle, verbatim: bool, s: &str) -> (result: Vec<String>)
    ensures
        texts(result@) == pieces(style, verbatim, s@),
{
    let chars = chars_of(s);
    let mut out: Vec<String> = Vec::new();
    let mut current = String::new();
    let mut i: usize = 0;
    assert(texts(out@).push(current@) =~= pieces(style, verbatim, s@.take(0)));
    while i < chars.len()
        invariant
            i <= chars.len(),
            chars@ == s@,
            texts(out@).push(current@) == pieces(style, verbatim, s@.take(i as int)),
        decreases chars.len() - i,
    {
        let ghost before_out = texts(out@);
        let ghost before_current = current@;
        proof {
            assert(s@.take(i + 1).drop_last() =~= s@.take(i as int));
            let before = pieces(style, verbatim, s@.take(i as int));
            assert(before.drop_last() =~= before_out);
        }
        if splits_at(style, verbatim, chars[i]) {
            out.push(current);
            current = String::new();
            assert(texts(out@) =~= before_out.push(before_current));
            assert(current@ =~= Seq::<char>::empty());
        } else {
            current.push(chars[i]);
        }
        i += 1;
        assert(texts(out@).push(current@) =~= pieces(style, verbatim, s@.take(i as int)));
    }
    assert(s@.take(i as int) =~= s@);
    let ghost done = texts(out@);
    let ghost last = current@;
    out.push(current);
    assert(texts(out@) =~= done.push(last));
    out
}

/// The pieces that count.
fn split_counted(style: PathStyle, verbatim: bool, s: &str) -> (result: Vec<String>)
    ensures
        texts(result@) == counted_pieces(style, verbatim, s@),
{
    let all = split_pieces(style, verbatim, s);
    let ghost list = pieces(style, verbatim, s@);
    let ghost keep = |piece: Seq<char>| counts(verbatim, piece);
    let mut out: Vec<String> = Vec::new();
    let mut i: usize = 0;
    proof {
        reveal(Seq::filter);
        assert(texts(out@) =~= list.take(0).filter(keep));
    }
    while i < all.len()
        invariant
            i <= all.len(),
            texts(all@) == list,
            keep == (|piece: Seq<char>| counts(verbatim, piece)),
            texts(out@) == list.take(i as int).filter(keep),
        decreases all.len() - i,
    {
        let ghost piece = list[i as int];
        let ghost before = texts(out@);
        proof {
            assert(piece == all@[i as int]@);
            assert(list.take(i + 1) =~= list.take(i as int).push(piece));
            list.take(i as int).lemma_filter_push(piece, keep);
        }
        if piece_counts(verbatim, all[i].as_str()) {
            out.push(all[i].clone());
            assert(texts(out@) =~= before.push(piece));
        }
        i += 1;
    }
    assert(list.take(i as int) =~= list);
    out
}

fn component_text(piece: &str) -> (result: String)
    ensures
        result@ == component_key(piece@),
{
    proof {
        reveal_strlit(".");
        reveal_strlit("..");
        assert("."@ =~= seq!['.']);
        assert(".."@ =~= seq!['.', '.']);
    }
    let mut key = String::new();
    if same_text(piece, ".") {
        key.push('\u{2}');
    } else if same_text(piece, "..") {
        key.push('\u{3}');
    } else {
        key.push('\u{4}');
        key.append(piece);
    }
    assert(key@ =~= component_key(piece@));
    key
}

fn push_mark(list: &mut Vec<String>, mark: char)
    ensures
        texts(final(list)@) == texts(old(list)@).push(seq![mark]),
{
    let ghost before = texts(list@);
    let mut key = String::new();
    key.push(mark);
    assert(key@ =~= seq![mark]);
    list.push(key);
    assert(texts(list@) =~= before.push(seq![mark]));
}

fn push_prefix(list: &mut Vec<String>, prefix: &PathPrefix)
    ensures
        texts(final(list)@) == texts(old(list)@) + prefix_keys(Some(prefix@)),
{
    let ghost before = texts(list@);
    let mark = match prefix.kind {
        PrefixKind::Verbatim => '0',
        PrefixKind::VerbatimShare => '1',
        PrefixKind::VerbatimDisk => '2',
        PrefixKind::Device => '3',
        PrefixKind::Share => '4',
        PrefixKind::Disk => '5',
    };
    let mut key = String::new();
    key.push('\u{0}');
    key.push(mark);
    assert(key@ =~= seq!['\u{0}', kind_mark(prefix.kind)]);
    list.push(key);
    list.push(prefix.first.clone());
    list.push(prefix.second.clone());
    assert(texts(list@) =~= before + prefix_keys(Some(prefix@)));
}

/// The components of a path, as the texts that they are ordered by.
pub fn split_components(style: PathStyle, path: &str) -> (result: Vec<String>)
    ensures
        texts(result@) == components(style, path@),
{
    let layout = read_layout(style, path);
    let mut out: Vec<String> = Vec::new();
    assert(texts(out@) =~= Seq::<Seq<char>>::empty());
    let mut implied = false;
    if let Some(prefix) = &layout.prefix {
        assert(prefix@ == opt_prefix(layout.prefix)->0);
        push_prefix(&mut out, prefix);
        implied = matches!(prefix.kind, PrefixKind::Share | PrefixKind::Device);
    }
    assert(texts(out@) =~= prefix_keys(prefix(style, path@)));
    if layout.rooted || implied {
        push_mark(&mut out, '\u{1}');
    }
    assert(texts(out@) =~= prefix_keys(prefix(style, path@)) + root_keys(style, path@));
    if layout.prefix.is_none() && layout.dotted {
        push_mark(&mut out, '\u{2}');
    }
    let ghost head = prefix_keys(prefix(style, path@)) + root_keys(style, path@) + dot_keys(
        style,
        path@,
    );
    assert(texts(out@) =~= head);
    let body = path.substring_char(layout.start, path.unicode_len());
    assert(body@ =~= path@.skip(body_start(style, path@)));
    let names = split_counted(style, layout.verbatim, body);
    let ghost list = texts(names@);
    let ghost key = |piece: Seq<char>| component_key(piece);
    let mut i: usize = 0;
    assert(head + list.take(0).map_values(key) =~= head);
    while i < names.len()
        invariant
            i <= names.len(),
            texts(names@) == list,
            key == (|piece: Seq<char>| component_key(piece)),
            texts(out@) == head + list.take(i as int).map_values(key),
        decreases names.len() - i,
    {
        let ghost before = texts(out@);
        assert(list[i as int] == names@[i as int]@);
        let text = component_text(names[i].as_str());
        let ghost shown = text@;
        out.push(text);
        assert(texts(out@) =~= before.push(shown));
        i += 1;
        assert(texts(out@) =~= head + list.take(i as int).map_values(key));
    }
    assert(list.take(i as int) =~= list);
    out
}

/// Lists of texts in order: by the first text that differs, a proper prefix
/// before the longer list.
pub open spec fn list_lt(a: Seq<Seq<char>>, b: Seq<Seq<char>>) -> bool
    decreases a.len(),
{
    if b.len() == 0 {
        false
    } else if a.len() == 0 {
        true
    } else if a[0] != b[0] {
        text_lt(a[0], b[0])
    } else {
        list_lt(a.skip(1), b.skip(1))
    }
}

pub proof fn lemma_list_lt_irreflexive(a: Seq<Seq<char>>)
    ensures
        !list_lt(a, a),
    decreases a.len(),
{
    if a.len() > 0 {
        lemma_list_lt_irreflexive(a.skip(1));
    }
}

pub proof fn lemma_list_lt_transitive(
    a: Seq<Seq<char>>,
    b: Seq<Seq<char>>,
    c: Seq<Seq<char>>,
)
    requires
        list_lt(a, b),
        list_lt(b, c),
    ensures
        list_lt(a, c),
    decreases a.len(),
{
    if a.len() > 0 {
        if a[0] == b[0] && b[0] == c[0] {
            lemma_list_lt_transitive(a.skip(1), b.skip(1), c.skip(1));
        } else if a[0] != b[0] && b[0] != c[0] {
            lemma_text_lt_transitive(a[0], b[0], c[0]);
            if a[0] == c[0] {
                lemma_text_lt_irreflexive(a[0]);
            }
        }
    }
}

pub proof fn lemma_list_lt_total(a: Seq<Seq<char>>, b: Seq<Seq<char>>)
    ensures
        list_lt(a, b) || list_lt(b, a) || a == b,
    decreases a.len(),
{
    if a.len() > 0 && b.len() > 0 {
        if a[0] == b[0] {
            lemma_list_lt_total(a.skip(1), b.skip(1));
            if a.skip(1) == b.skip(1) {
                assert(a =~= seq![a[0]] + a.skip(1));
                assert(b =~= seq![b[0]] + b.skip(1));
            }
        } else {
            lemma_text_lt_total(a[0], b[0]);
        }
    } else if a.len() == 0 && b.len() == 0 {
        assert(a =~= b);
    }
}

fn list_less(a: &Vec<String>, b: &Vec<String>) -> (result: bool)
    ensures
        result == list_lt(texts(a@), texts(b@)),
{
    let ghost x = texts(a@);
    let ghost y = texts(b@);
    let mut i: usize = 0;
    assert(x.skip(0) =~= x && y.skip(0) =~= y);
    while i < a.len() && i < b.len()
        invariant
            i <= a.len(),
            i <= b.len(),
            x == texts(a@),
            y == texts(b@),
            list_lt(x, y) == list_lt(x.skip(i as int), y.skip(i as int)),
        decreases a.len() - i,
    {
        assert(x.skip(i as int)[0] == a@[i as int]@);
        assert(y.skip(i as int)[0] == b@[i as int]@);
        if !same_text(a[i].as_str(), b[i].as_str()) {
            return text_less(a[i].as_str(), b[i].as_str());
        }
        assert(x.skip(i as int).skip(1) =~= x.skip(i + 1));
        assert(y.skip(i as int).skip(1) =~= y.skip(i + 1));
        i += 1;
    }
    i < b.len()
}

/// A path, ordered by its components.
#[derive(Debug)]
pub struct PathText {
    pub style: PathStyle,
    pub text: String,
}

impl Ordered for PathText {
    open spec fn precedes(self, other: Self) -> bool {
        list_lt(components(self.style, self.text@), components(other.style, other.text@))
    }

    fn comes_before(&self, other: &Self) -> (result: bool) {
        list_less(
            &split_components(self.style, self.text.as_str()),
            &split_components(other.style, other.text.as_str()),
        )
    }
}

/// Paths are ranked by their components.
pub proof fn lemma_paths_ranked()
    ensures
        ranks::<PathText>(),
{
    assert forall|a: PathText, b: PathText| #[trigger] a.precedes(b) implies !b.precedes(a) by {
        let x = components(a.style, a.text@);
        let y = components(b.style, b.text@);
        if list_lt(x, y) && list_lt(y, x) {
            lemma_list_lt_transitive(x, y, x);
            lemma_list_lt_irreflexive(x);
        }
    }
    assert forall|a: PathText, b: PathText, c: PathText|
        !(#[trigger] a.precedes(b)) && !(#[trigger] b.precedes(c)) implies !a.precedes(c) by {
        let x = components(a.style, a.text@);
        let y = components(b.style, b.text@);
        let z = components(c.style, c.text@);
        lemma_list_lt_total(x, y);
        lemma_list_lt_total(y, z);
        if list_lt(x, z) && x != y && y != z {
            lemma_list_lt_transitive(z, y, x);
            lemma_list_lt_transitive(z, x, z);
            lemma_list_lt_irreflexive(z);
        }
    }
}

/// Whether two paths have the same components.
pub fn same_path(style: PathStyle, a: &str, b: &str) -> (result: bool)
    ensures
        result == (components(style, a@) == components(style, b@)),
{
    let x = split_components(style, a);
    let y = split_components(style, b);
    let less = list_less(&x, &y);
    let more = list_less(&y, &x);
    proof {
        lemma_list_lt_total(components(style, a@), components(style, b@));
        lemma_list_lt_irreflexive(components(style, a@));
    }
    !less && !more
}

/// The place of the last character that splits; -1 where there is none.
pub open spec fn last_split(style: PathStyle, verbatim: bool, s: Seq<char>) -> int
    decreases s.len(),
{
    if s.len() == 0 {
        -1
    } else if splits(style, verbatim, s.last()) {
        s.len() - 1
    } else {
        last_split(style, verbatim, s.drop_last())
    }
}

pub proof fn lemma_last_split(style: PathStyle, verbatim: bool, s: Seq<char>)
    ensures
        -1 <= last_split(style, verbatim, s) < s.len() || s.len() == 0,
        s.len() == 0 ==> last_split(style, verbatim, s) == -1,
    decreases s.len(),
{
    if s.len() > 0 {
        lemma_last_split(style, verbatim, s.drop_last());
    }
}

/// The last piece of a text.
pub open spec fn last_piece(style: PathStyle, verbatim: bool, s: Seq<char>) -> Seq<char> {
    s.skip(last_split(style, verbatim, s) + 1)
}

/// The text before its last piece and the character that splits it off.
pub open spec fn before_last(style: PathStyle, verbatim: bool, s: Seq<char>) -> Seq<char> {
    let at = last_split(style, verbatim, s);
    s.take(if at >= 0 {
        at
    } else {
        0
    })
}

/// The names of a path without pieces at their end that do not count.
pub open spec fn without_tail(style: PathStyle, verbatim: bool, body: Seq<char>) -> Seq<char>
    decreases body.len(),
{
    if body.len() > 0 && !counts(verbatim, last_piece(style, verbatim, body)) {
        proof {
            lemma_last_split(style, verbatim, body);
        }
        without_tail(style, verbatim, before_last(style, verbatim, body))
    } else {
        body
    }
}

/// The names of a path: what stands behind its prefix, its root and a leading
/// dot, up to the last piece that counts.
pub open spec fn names(style: PathStyle, path: Seq<char>) -> Seq<char> {
    without_tail(
        style,
        taken_verbatim(prefix(style, path)),
        path.skip(body_start(style, path)),
    )
}

/// The last name of a path; none where it ends with its prefix, its root, the
/// directory itself or the directory above.
pub open spec fn file_name(style: PathStyle, path: Seq<char>) -> Option<Seq<char>> {
    let name = last_piece(style, taken_verbatim(prefix(style, path)), names(style, path));
    if name.len() > 0 && name != seq!['.'] && name != seq!['.', '.'] {
        Some(name)
    } else {
        None
    }
}

/// The path one level up; none for the empty path, and where a path has no
/// more than its prefix and its root.
pub open spec fn parent(style: PathStyle, path: Seq<char>) -> Option<Seq<char>> {
    let verbatim = taken_verbatim(prefix(style, path));
    if names(style, path).len() > 0 {
        Some(
            path.take(body_start(style, path)) + without_tail(
                style,
                verbatim,
                before_last(style, verbatim, names(style, path)),
            ),
        )
    } else if prefix(style, path) is None && is_dotted(style, path) {
        Some(Seq::empty())
    } else {
        None
    }
}

/// A piece is a name, and neither the directory itself nor the one above.
pub open spec fn is_plain_name(piece: Seq<char>) -> bool {
    piece != seq!['.'] && piece != seq!['.', '.']
}

/// The names after pieces are followed from there: one that names the
/// directory above takes the last name away, if there is one.
pub open spec fn followed(from: Seq<Seq<char>>, steps: Seq<Seq<char>>) -> Seq<Seq<char>>
    decreases steps.len(),
{
    if steps.len() == 0 {
        from
    } else {
        let before = followed(from, steps.drop_last());
        let step = steps.last();
        if step == seq!['.', '.'] {
            if before.len() > 0 && is_plain_name(before.last()) {
                before.drop_last()
            } else {
                before
            }
        } else {
            before.push(step)
        }
    }
}

/// Names with a backslash before each.
pub open spec fn spelled(list: Seq<Seq<char>>) -> Seq<char>
    decreases list.len(),
{
    if list.len() == 0 {
        Seq::empty()
    } else {
        spelled(list.drop_last()).push('\\') + list.last()
    }
}

/// A path below one that is taken verbatim: it is spelled anew, without dots
/// and without the directories that are left again.
pub open spec fn joined_verbatim(base: Seq<char>, rest: Seq<char>) -> Seq<char> {
    let windows = PathStyle::Windows;
    let own = counted_pieces(windows, true, base.skip(body_start(windows, base)));
    let steps = counted_pieces(windows, false, rest.skip(body_start(windows, rest)));
    let from = if is_rooted(windows, rest) {
        Seq::empty()
    } else {
        own
    };
    let found = followed(from, steps);
    let lead = base.take(prefix_len(prefix(windows, base)));
    if found.len() > 0 {
        lead + spelled(found)
    } else if is_rooted(windows, rest) || is_rooted(windows, base) {
        lead.push('\\')
    } else {
        lead
    }
}

/// The character that is put between a path and one below it.
pub open spec fn main_separator(style: PathStyle) -> char {
    if style is Windows {
        '\\'
    } else {
        '/'
    }
}

/// A path with what makes another one stand below it. A disk alone needs
/// nothing.
pub open spec fn led(style: PathStyle, base: Seq<char>) -> Seq<char> {
    let disk_alone = prefix(style, base) matches Some(prefix) && prefix.kind is Disk && base.len()
        == 2;
    if base.len() == 0 || splits(style, false, base.last()) || disk_alone {
        base
    } else {
        base.push(main_separator(style))
    }
}

/// One path below another. A second path with a prefix stands for itself, and
/// so does one with a root, but for the prefix of the first.
pub open spec fn joined(style: PathStyle, base: Seq<char>, rest: Seq<char>) -> Seq<char> {
    if prefix(style, rest) is Some {
        rest
    } else if taken_verbatim(prefix(style, base)) && rest.len() > 0 {
        joined_verbatim(base, rest)
    } else if is_rooted(style, rest) {
        base.take(prefix_len(prefix(style, base))) + rest
    } else {
        led(style, base) + rest
    }
}

/// The place behind the last character that splits.
fn last_piece_start(
    style: PathStyle,
    verbatim: bool,
    chars: &Vec<char>,
    start: usize,
    limit: usize,
) -> (result: usize)
    requires
        start <= limit <= chars@.len(),
    ensures
        start <= result <= limit,
        result == start + last_split(
            style,
            verbatim,
            chars@.subrange(start as int, limit as int),
        ) + 1,
{
    let mut n: usize = limit;
    while n > start && !splits_at(style, verbatim, chars[n - 1])
        invariant
            start <= n <= limit <= chars@.len(),
            last_split(style, verbatim, chars@.subrange(start as int, limit as int)) == last_split(
                style,
                verbatim,
                chars@.subrange(start as int, n as int),
            ),
        decreases n,
    {
        assert(chars@.subrange(start as int, n as int).drop_last() =~= chars@.subrange(
            start as int,
            n - 1,
        ));
        assert(chars@.subrange(start as int, n as int).last() == chars@[n - 1]);
        n -= 1;
    }
    assert(n > start ==> chars@.subrange(start as int, n as int).last() == chars@[n - 1]);
    n
}

/// The end of the names without pieces at their end that do not count.
fn tail_end(
    style: PathStyle,
    verbatim: bool,
    path: &str,
    chars: &Vec<char>,
    start: usize,
    limit: usize,
) -> (result: usize)
    requires
        chars@ == path@,
        start <= limit <= chars@.len(),
    ensures
        start <= result <= limit,
        without_tail(style, verbatim, path@.subrange(start as int, limit as int))
            == path@.subrange(start as int, result as int),
{
    let mut n: usize = limit;
    while n > start
        invariant_except_break
            start <= n <= limit <= chars@.len(),
            chars@ == path@,
            without_tail(style, verbatim, path@.subrange(start as int, limit as int))
                == without_tail(style, verbatim, path@.subrange(start as int, n as int)),
        ensures
            start <= n <= limit,
            without_tail(style, verbatim, path@.subrange(start as int, limit as int))
                == path@.subrange(start as int, n as int),
        decreases n,
    {
        let ghost body = path@.subrange(start as int, n as int);
        let from: usize = last_piece_start(style, verbatim, chars, start, n);
        let piece = path.substring_char(from, n);
        assert(piece@ =~= last_piece(style, verbatim, body));
        if piece_counts(verbatim, piece) {
            break ;
        }
        let cut: usize = if from > start {
            from - 1
        } else {
            start
        };
        assert(before_last(style, verbatim, body) =~= path@.subrange(start as int, cut as int));
        n = cut;
    }
    n
}

/// The last name of a path.
pub fn path_file_name(style: PathStyle, path: &str) -> (result: Option<String>)
    ensures
        opt_text(result) == file_name(style, path@),
{
    let layout = read_layout(style, path);
    let chars = chars_of(path);
    let len: usize = chars.len();
    let start: usize = layout.start;
    assert(path@.subrange(start as int, len as int) =~= path@.skip(start as int));
    let end: usize = tail_end(style, layout.verbatim, path, &chars, start, len);
    let from: usize = last_piece_start(style, layout.verbatim, &chars, start, end);
    let name = path.substring_char(from, end);
    proof {
        let body = names(style, path@);
        assert(body == path@.subrange(start as int, end as int));
        assert(name@ =~= last_piece(style, layout.verbatim, body));
        reveal_strlit(".");
        reveal_strlit("..");
        assert("."@ =~= seq!['.']);
        assert(".."@ =~= seq!['.', '.']);
    }
    if name.unicode_len() == 0 || same_text(name, ".") || same_text(name, "..") {
        None
    } else {
        Some(name.to_owned())
    }
}

/// The path one level up.
pub fn path_parent(style: PathStyle, path: &str) -> (result: Option<String>)
    ensures
        opt_text(result) == parent(style, path@),
{
    let layout = read_layout(style, path);
    let verbatim = layout.verbatim;
    let chars = chars_of(path);
    let len: usize = chars.len();
    let start: usize = layout.start;
    assert(path@.subrange(start as int, len as int) =~= path@.skip(start as int));
    let end: usize = tail_end(style, verbatim, path, &chars, start, len);
    let ghost body = names(style, path@);
    assert(body == path@.subrange(start as int, end as int));
    if end > start {
        let from: usize = last_piece_start(style, verbatim, &chars, start, end);
        let cut: usize = if from > start {
            from - 1
        } else {
            start
        };
        assert(before_last(style, verbatim, body) =~= path@.subrange(start as int, cut as int));
        let up: usize = tail_end(style, verbatim, path, &chars, start, cut);
        let result = path.substring_char(0, up).to_owned();
        assert(result@ =~= path@.take(start as int) + path@.subrange(start as int, up as int));
        return Some(result);
    }
    if layout.prefix.is_none() && layout.dotted {
        let empty = String::new();
        assert(empty@ =~= Seq::<char>::empty());
        return Some(empty);
    }
    None
}

/// The names after pieces are followed from there.
fn follow(from: Vec<String>, steps: &Vec<String>) -> (result: Vec<String>)
    ensures
        texts(result@) == followed(texts(from@), texts(steps@)),
{
    let ghost start = texts(from@);
    let ghost list = texts(steps@);
    let mut found = from;
    let mut i: usize = 0;
    proof {
        reveal_strlit(".");
        reveal_strlit("..");
        assert("."@ =~= seq!['.']);
        assert(".."@ =~= seq!['.', '.']);
        assert(list.take(0) =~= Seq::<Seq<char>>::empty());
    }
    while i < steps.len()
        invariant
            i <= steps.len(),
            list == texts(steps@),
            "."@ == seq!['.'],
            ".."@ == seq!['.', '.'],
            texts(found@) == followed(start, list.take(i as int)),
        decreases steps.len() - i,
    {
        let ghost before = texts(found@);
        assert(list[i as int] == steps@[i as int]@);
        assert(list.take(i + 1).drop_last() =~= list.take(i as int));
        if same_text(steps[i].as_str(), "..") {
            let count: usize = found.len();
            if count > 0 {
                assert(before.last() == found@[count - 1]@);
                if !same_text(found[count - 1].as_str(), ".") && !same_text(
                    found[count - 1].as_str(),
                    "..",
                ) {
                    found.pop();
                    assert(texts(found@) =~= before.drop_last());
                }
            }
        } else {
            found.push(steps[i].clone());
            assert(texts(found@) =~= before.push(list[i as int]));
        }
        i += 1;
    }
    assert(list.take(i as int) =~= list);
    found
}

fn spell(lead: &str, list: &Vec<String>) -> (result: String)
    ensures
        result@ == lead@ + spelled(texts(list@)),
{
    let ghost all = texts(list@);
    let mut out = lead.to_owned();
    let mut i: usize = 0;
    assert(all.take(0) =~= Seq::<Seq<char>>::empty());
    assert(out@ =~= lead@ + spelled(all.take(0)));
    while i < list.len()
        invariant
            i <= list.len(),
            all == texts(list@),
            out@ == lead@ + spelled(all.take(i as int)),
        decreases list.len() - i,
    {
        assert(all[i as int] == list@[i as int]@);
        assert(all.take(i + 1).drop_last() =~= all.take(i as int));
        out.push('\\');
        out.append(list[i].as_str());
        i += 1;
        assert(out@ =~= lead@ + spelled(all.take(i as int)));
    }
    assert(all.take(i as int) =~= all);
    out
}

fn join_verbatim(base: &str, rest: &str) -> (result: String)
    ensures
        result@ == joined_verbatim(base@, rest@),
{
    let windows = PathStyle::Windows;
    let above = read_layout(windows, base);
    let below = read_layout(windows, rest);
    let tail = rest.substring_char(below.start, rest.unicode_len());
    assert(tail@ =~= rest@.skip(below.start as int));
    let steps = split_counted(windows, false, tail);
    let own: Vec<String> = if below.rooted {
        Vec::new()
    } else {
        let body = base.substring_char(above.start, base.unicode_len());
        assert(body@ =~= base@.skip(above.start as int));
        split_counted(windows, true, body)
    };
    assert(below.rooted ==> texts(own@) =~= Seq::<Seq<char>>::empty());
    let found = follow(own, &steps);
    let lead = base.substring_char(0, above.prefix_len);
    assert(lead@ =~= base@.take(above.prefix_len as int));
    assert(texts(found@).len() == found@.len());
    if found.len() > 0 {
        spell(lead, &found)
    } else {
        let mut out = lead.to_owned();
        if below.rooted || above.rooted {
            out.push('\\');
        }
        out
    }
}

/// One path below another.
pub fn path_join(style: PathStyle, base: &str, rest: &str) -> (result: String)
    ensures
        result@ == joined(style, base@, rest@),
{
    let above = read_layout(style, base);
    let below = read_layout(style, rest);
    if below.prefix.is_some() {
        return rest.to_owned();
    }
    if above.verbatim && rest.unicode_len() > 0 {
        return join_verbatim(base, rest);
    }
    if below.rooted {
        let mut out = base.substring_char(0, above.prefix_len).to_owned();
        out.append(rest);
        assert(out@ =~= joined(style, base@, rest@));
        return out;
    }
    let head = chars_of(base);
    let len: usize = head.len();
    let disk_alone = match &above.prefix {
        Some(prefix) => {
            assert(prefix@ == opt_prefix(above.prefix)->0);
            matches!(prefix.kind, PrefixKind::Disk) && len == 2
        },
        None => false,
    };
    let mut out = base.to_owned();
    if len > 0 && !splits_at(style, false, head[len - 1]) && !disk_alone {
        match style {
            PathStyle::Slash => {
                out.push('/');
            },
            PathStyle::Windows => {
                out.push('\\');
            },
        }
    }
    assert(out@ =~= led(style, base@));
    out.append(rest);
    assert(out@ =~= joined(style, base@, rest@));
    out
}

/// The pieces of a text: nothing is one empty piece, a character that splits
/// begins a new piece, and any other one goes on with the last.
pub proof fn lemma_pieces_one_by_one(style: PathStyle, verbatim: bool, s: Seq<char>, c: char)
    ensures
        pieces(style, verbatim, Seq::empty()) == seq![Seq::<char>::empty()],
        splits(style, verbatim, c) ==> pieces(style, verbatim, s.push(c)) == pieces(
            style,
            verbatim,
            s,
        ).push(Seq::empty()),
        !splits(style, verbatim, c) ==> pieces(style, verbatim, s.push(c)) == pieces(
            style,
            verbatim,
            s,
        ).drop_last().push(pieces(style, verbatim, s).last().push(c)),
{
    assert(s.push(c).drop_last() =~= s);
}

/// A piece counts where it holds something and is not a lone dot; a lone dot
/// counts in a path that is taken verbatim.
pub proof fn lemma_which_pieces_count(verbatim: bool, piece: Seq<char>)
    ensures
        !counts(verbatim, Seq::empty()),
        counts(true, seq!['.']),
        !counts(false, seq!['.']),
        counts(verbatim, seq!['.', '.']),
        piece.len() > 0 && piece != seq!['.'] ==> counts(verbatim, piece),
{
    let dots: Seq<char> = seq!['.', '.'];
    let dot: Seq<char> = seq!['.'];
    assert(dots.len() == 2 && dot.len() == 1);
}

/// Lists are ordered by the first text in which they differ; one that ends
/// there comes first.
pub proof fn lemma_list_lt_at_first_difference(a: Seq<Seq<char>>, b: Seq<Seq<char>>, k: int)
    requires
        0 <= k <= a.len(),
        k < b.len(),
        a.take(k) == b.take(k),
        k == a.len() || text_lt(a[k], b[k]),
    ensures
        list_lt(a, b),
        !list_lt(b, a),
    decreases k,
{
    if k > 0 {
        assert(a[0] == a.take(k)[0]);
        assert(b[0] == b.take(k)[0]);
        assert(a.skip(1).take(k - 1) =~= a.take(k).skip(1));
        assert(b.skip(1).take(k - 1) =~= b.take(k).skip(1));
        lemma_list_lt_at_first_difference(a.skip(1), b.skip(1), k - 1);
    } else if k < a.len() {
        lemma_text_lt_irreflexive(a[0]);
        if text_lt(b[0], a[0]) {
            lemma_text_lt_transitive(a[0], b[0], a[0]);
        }
    }
}

/// A name as one level of a path with slashes: it holds something and no slash,
/// and is neither the directory itself nor the one above.
pub open spec fn is_level(name: Seq<char>) -> bool {
    &&& name.len() > 0
    &&& name != seq!['.']
    &&& name != seq!['.', '.']
    &&& !name.contains('/')
}

/// What can stand before a name in a path with slashes: nothing, or what ends
/// with a slash.
pub open spec fn is_lead(lead: Seq<char>) -> bool {
    lead.len() == 0 || lead.last() == '/'
}

proof fn lemma_level_does_not_split(name: Seq<char>)
    requires
        is_level(name),
    ensures
        forall|i: int|
            0 <= i < name.len() ==> !splits(PathStyle::Slash, false, #[trigger] name[i]),
{
    assert forall|i: int| 0 <= i < name.len() implies !splits(
        PathStyle::Slash,
        false,
        #[trigger] name[i],
    ) by {
        assert(name.contains(name[i]));
    }
}

proof fn lemma_last_split_before(lead: Seq<char>, name: Seq<char>)
    requires
        is_lead(lead),
        forall|i: int|
            0 <= i < name.len() ==> !splits(PathStyle::Slash, false, #[trigger] name[i]),
    ensures
        last_split(PathStyle::Slash, false, lead + name) == lead.len() - 1,
    decreases name.len(),
{
    let all = lead + name;
    if name.len() == 0 {
        assert(all =~= lead);
    } else {
        let front = name.drop_last();
        assert forall|i: int| 0 <= i < front.len() implies !splits(
            PathStyle::Slash,
            false,
            #[trigger] front[i],
        ) by {
            assert(front[i] == name[i]);
        }
        assert(all.drop_last() =~= lead + front);
        assert(!splits(PathStyle::Slash, false, name[name.len() - 1]));
        lemma_last_split_before(lead, front);
    }
}

proof fn lemma_pieces_before(lead: Seq<char>, name: Seq<char>)
    requires
        is_lead(lead),
        forall|i: int|
            0 <= i < name.len() ==> !splits(PathStyle::Slash, false, #[trigger] name[i]),
    ensures
        pieces(PathStyle::Slash, false, lead).len() > 0,
        pieces(PathStyle::Slash, false, lead).last() == Seq::<char>::empty(),
        pieces(PathStyle::Slash, false, lead + name) == pieces(
            PathStyle::Slash,
            false,
            lead,
        ).drop_last().push(name),
    decreases name.len(),
{
    let slash = PathStyle::Slash;
    let own = pieces(slash, false, lead);
    lemma_pieces_not_empty(slash, false, lead);
    if lead.len() > 0 {
        assert(splits(slash, false, lead.last()));
    }
    assert(own.last() =~= Seq::<char>::empty());
    if name.len() == 0 {
        assert(lead + name =~= lead);
        assert(name =~= Seq::<char>::empty());
        assert(own =~= own.drop_last().push(own.last()));
    } else {
        let front = name.drop_last();
        assert forall|i: int| 0 <= i < front.len() implies !splits(
            slash,
            false,
            #[trigger] front[i],
        ) by {
            assert(front[i] == name[i]);
        }
        assert((lead + name).drop_last() =~= lead + front);
        assert(!splits(slash, false, name[name.len() - 1]));
        lemma_pieces_before(lead, front);
        let before = pieces(slash, false, lead + front);
        assert(before.drop_last() =~= own.drop_last());
        assert(before.last() == front);
        assert(front.push(name.last()) =~= name);
    }
}

proof fn lemma_lead_lies_before_names(lead: Seq<char>, name: Seq<char>)
    requires
        is_lead(lead),
        is_level(name),
    ensures
        ({
            let start = body_start(PathStyle::Slash, lead + name);
            &&& start == body_start(PathStyle::Slash, lead)
            &&& is_rooted(PathStyle::Slash, lead + name) == is_rooted(PathStyle::Slash, lead)
            &&& is_dotted(PathStyle::Slash, lead + name) == is_dotted(PathStyle::Slash, lead)
            &&& 0 <= start <= lead.len()
            &&& is_lead(lead.skip(start))
            &&& (lead + name).skip(start) == lead.skip(start) + name
            &&& names(PathStyle::Slash, lead + name) == lead.skip(start) + name
            &&& last_piece(PathStyle::Slash, false, lead.skip(start) + name) == name
            &&& before_last(PathStyle::Slash, false, lead.skip(start) + name) == lead.skip(
                start,
            ).take(if lead.skip(start).len() > 0 {
                lead.skip(start).len() - 1
            } else {
                0
            })
        }),
{
    let slash = PathStyle::Slash;
    let path = lead + name;
    lemma_level_does_not_split(name);
    crate::path_style::lemma_where_names_begin(path);
    crate::path_style::lemma_where_names_begin(lead);
    if lead.len() == 0 {
        assert(path =~= name);
        assert(name.contains(name[0]));
        if name[0] == '.' {
            if name.len() == 1 {
                assert(name =~= seq!['.']);
            } else {
                assert(name.contains(name[1]));
            }
        }
    } else {
        assert(path[0] == lead[0]);
        if lead.len() > 1 {
            assert(path[1] == lead[1]);
        }
    }
    let start = body_start(slash, path);
    let rest = lead.skip(start);
    assert(path.skip(start) =~= rest + name);
    if rest.len() > 0 {
        assert(rest.last() == lead.last());
    }
    lemma_last_split_before(rest, name);
    assert((rest + name).skip(rest.len() as int) =~= name);
    if rest.len() > 0 {
        assert((rest + name).take(rest.len() - 1) =~= rest.take(rest.len() - 1));
    } else {
        assert((rest + name).take(0) =~= rest.take(0));
    }
}

/// A path that ends with a name has that name as its last, whatever stands
/// before it, and one component more than what stands before it.
pub proof fn lemma_path_ends_with_its_name(lead: Seq<char>, name: Seq<char>)
    requires
        is_lead(lead),
        is_level(name),
    ensures
        file_name(PathStyle::Slash, lead + name) == Some(name),
        components(PathStyle::Slash, lead + name) == components(PathStyle::Slash, lead).push(
            seq!['\u{4}'] + name,
        ),
{
    let slash = PathStyle::Slash;
    let path = lead + name;
    lemma_level_does_not_split(name);
    lemma_lead_lies_before_names(lead, name);
    let start = body_start(slash, path);
    let rest = lead.skip(start);
    let keep = |piece: Seq<char>| counts(false, piece);
    let key = |piece: Seq<char>| component_key(piece);
    lemma_pieces_before(rest, name);
    let front = pieces(slash, false, rest).drop_last();
    assert(pieces(slash, false, rest) =~= front.push(Seq::empty()));
    reveal(Seq::filter);
    front.lemma_filter_push(Seq::empty(), keep);
    front.lemma_filter_push(name, keep);
    assert(counted_pieces(slash, false, rest) == front.filter(keep));
    assert(counted_pieces(slash, false, rest + name) == front.filter(keep).push(name));
    assert(front.filter(keep).push(name).map_values(key) =~= front.filter(keep).map_values(
        key,
    ).push(component_key(name)));
    assert(components(slash, path) =~= components(slash, lead).push(seq!['\u{4}'] + name));
}

/// The path one level above a name is what stands before it: the path that the
/// name was put below, the root, or nothing.
pub proof fn lemma_parent_is_what_stands_before(
    lead: Seq<char>,
    above: Seq<char>,
    name: Seq<char>,
)
    requires
        is_lead(lead),
        is_level(above),
        is_level(name),
    ensures
        parent(PathStyle::Slash, lead + above + seq!['/'] + name) == Some(lead + above),
        parent(PathStyle::Slash, seq!['/'] + name) == Some(seq!['/']),
        parent(PathStyle::Slash, name) == Some(Seq::<char>::empty()),
        parent(PathStyle::Slash, seq!['/']) is None,
        parent(PathStyle::Slash, Seq::empty()) is None,
{
    let slash = PathStyle::Slash;
    let base = lead + above;
    let whole = base + seq!['/'];
    assert(lead + above + seq!['/'] + name =~= whole + name);
    assert(whole.last() == '/');
    lemma_lead_lies_before_names(whole, name);
    lemma_lead_lies_before_names(lead, above);
    lemma_level_does_not_split(above);
    let start = body_start(slash, whole + name);
    crate::path_style::lemma_where_names_begin(whole);
    crate::path_style::lemma_where_names_begin(base);
    assert(whole[0] == base[0]);
    if base.len() > 1 {
        assert(whole[1] == base[1]);
    } else {
        assert(lead.len() == 0);
        assert(base =~= above);
        if base[0] == '.' {
            assert(above =~= seq!['.']);
        }
    }
    assert(start == body_start(slash, base));
    let rest = whole.skip(start);
    assert(rest.take(rest.len() - 1) =~= base.skip(start));
    assert(base.skip(start) =~= lead.skip(start) + above);
    assert(counts(false, last_piece(slash, false, base.skip(start))));
    assert(without_tail(slash, false, base.skip(start)) == base.skip(start));
    assert((whole + name).take(start) + base.skip(start) =~= base) by {
        assert((whole + name).take(start) =~= base.take(start));
    }
    let root: Seq<char> = seq!['/'];
    assert(root.last() == '/');
    lemma_lead_lies_before_names(root, name);
    crate::path_style::lemma_where_names_begin(root);
    assert(root.skip(1) =~= Seq::<char>::empty());
    assert((root + name).take(1) =~= root);
    assert(without_tail(slash, false, Seq::<char>::empty()) == Seq::<char>::empty());
    assert(root.skip(1).take(0) =~= Seq::<char>::empty());
    assert((root + name).take(1) + Seq::<char>::empty() =~= root);
    let none = Seq::<char>::empty();
    lemma_lead_lies_before_names(none, name);
    crate::path_style::lemma_where_names_begin(none);
    assert(none + name =~= name);
    assert(none.skip(0) =~= none);
    assert(none.take(0) =~= none);
    assert(name.take(0) + none =~= none);
    assert(none.skip(0).take(0) =~= none);
}

/// With slashes, a path that is put below another stands behind it with one
/// slash between; one that begins with a slash stands for itself. Nothing before
/// it adds nothing.
pub proof fn lemma_one_path_below_another(base: Seq<char>, rest: Seq<char>)
    ensures
        rest.len() > 0 && rest[0] == '/' ==> joined(PathStyle::Slash, base, rest) == rest,
        rest.len() == 0 || rest[0] != '/' ==> {
            &&& base.len() > 0 && base.last() != '/' ==> joined(PathStyle::Slash, base, rest)
                == base + seq!['/'] + rest
            &&& base.len() == 0 || base.last() == '/' ==> joined(PathStyle::Slash, base, rest)
                == base + rest
        },
{
    assert(base.take(0) + rest =~= rest);
    assert(base.push('/') =~= base + seq!['/']);
}

/// A name that is put below a path with slashes is the last name of what comes
/// out.
pub proof fn lemma_name_put_below_is_the_last(base: Seq<char>, name: Seq<char>)
    requires
        is_level(name),
    ensures
        file_name(PathStyle::Slash, joined(PathStyle::Slash, base, name)) == Some(name),
{
    assert(name.contains(name[0]));
    lemma_one_path_below_another(base, name);
    if base.len() > 0 && base.last() != '/' {
        let lead = base + seq!['/'];
        assert(lead.last() == '/');
        lemma_path_ends_with_its_name(lead, name);
    } else {
        lemma_path_ends_with_its_name(base, name);
    }
}

/// In the style of Windows a path with a prefix stands for itself wherever it
/// is put; one with a root keeps the prefix of what it is put below; any other
/// stands behind it with a backslash between, unless what it is put below ends
/// with a separator or is a disk alone.
pub proof fn lemma_windows_path_below_another(base: Seq<char>, rest: Seq<char>)
    requires
        !taken_verbatim(prefix(PathStyle::Windows, base)),
    ensures
        ({
            let windows = PathStyle::Windows;
            let all = joined(windows, base, rest);
            let own = prefix(windows, base);
            let disk_alone = own is Some && own->0.kind is Disk && base.len() == 2;
            &&& prefix(windows, rest) is Some ==> all == rest
            &&& prefix(windows, rest) is None && rest.len() > 0 && (rest[0] == '\\' || rest[0]
                == '/') ==> all == base.take(prefix_len(own)) + rest
            &&& prefix(windows, rest) is None && (rest.len() == 0 || (rest[0] != '\\' && rest[0]
                != '/')) ==> {
                &&& base.len() == 0 || base.last() == '\\' || base.last() == '/' || disk_alone
                    ==> all == base + rest
                &&& base.len() > 0 && base.last() != '\\' && base.last() != '/' && !disk_alone
                    ==> all == base.push('\\') + rest
            }
        }),
{
}

/// Following pieces: a name is put behind the others, and the directory above
/// takes the last name away, unless there is none.
pub proof fn lemma_following_pieces(
    from: Seq<Seq<char>>,
    steps: Seq<Seq<char>>,
    name: Seq<char>,
)
    ensures
        followed(from, Seq::empty()) == from,
        name != seq!['.', '.'] ==> followed(from, steps.push(name)) == followed(from, steps).push(
            name,
        ),
        is_plain_name(name) ==> followed(from, steps.push(name).push(seq!['.', '.'])) == followed(
            from,
            steps,
        ),
        followed(from, steps).len() == 0 ==> followed(from, steps.push(seq!['.', '.'])).len() == 0,
        spelled(Seq::empty()).len() == 0,
        spelled(steps.push(name)) == spelled(steps) + seq!['\\'] + name,
{
    let up: Seq<char> = seq!['.', '.'];
    assert(steps.push(name).drop_last() =~= steps);
    assert(steps.push(name).push(up).drop_last() =~= steps.push(name));
    assert(steps.push(up).drop_last() =~= steps);
    if is_plain_name(name) {
        let before = followed(from, steps);
        let with = followed(from, steps.push(name));
        assert(steps.push(name).last() == name);
        assert(with == before.push(name));
        assert(with.last() == name);
        assert(with.drop_last() =~= before);
        assert(steps.push(name).push(up).last() == up);
    }
    assert(spelled(steps.push(name)) =~= spelled(steps) + seq!['\\'] + name);
}

/// Prefixes are ranked by their kind: verbatim ones first, then devices, shares
/// and disks; and components by what they are: a prefix, the root, the directory
/// itself, the one above, and names.
pub proof fn lemma_ranks_of_components(name: Seq<char>)
    requires
        is_plain_name(name),
    ensures
        kind_mark(PrefixKind::Verbatim) < kind_mark(PrefixKind::VerbatimShare),
        kind_mark(PrefixKind::VerbatimShare) < kind_mark(PrefixKind::VerbatimDisk),
        kind_mark(PrefixKind::VerbatimDisk) < kind_mark(PrefixKind::Device),
        kind_mark(PrefixKind::Device) < kind_mark(PrefixKind::Share),
        kind_mark(PrefixKind::Share) < kind_mark(PrefixKind::Disk),
        text_lt(component_key(seq!['.']), component_key(seq!['.', '.'])),
        text_lt(component_key(seq!['.', '.']), component_key(name)),
        component_key(name).skip(1) == name,
{
    let dot: Seq<char> = seq!['.'];
    let dots: Seq<char> = seq!['.', '.'];
    assert(dot.len() == 1 && dots.len() == 2);
    assert(component_key(dot)[0] == '\u{2}');
    assert(component_key(dots)[0] == '\u{3}');
    assert(component_key(name)[0] == '\u{4}');
    assert(component_key(name).skip(1) =~= name);
}

/// What the components of a path begin with: its prefix as three, and its root
/// and a leading dot as one each. So a path with a root never has the components
/// of one without.
pub proof fn lemma_what_components_begin_with(style: PathStyle, path: Seq<char>)
    ensures
        ({
            let all = components(style, path);
            let own = prefix(style, path);
            let n: int = if own is Some {
                3
            } else {
                0
            };
            let rooted = is_rooted(style, path) || (own is Some && (own->0.kind is Share
                || own->0.kind is Device));
            &&& own is Some ==> all.len() >= 3 && all[0] == seq!['\u{0}', kind_mark(own->0.kind)]
                && all[1] == own->0.first && all[2] == own->0.second
            &&& rooted ==> all.len() > n && all[n] == seq!['\u{1}']
            &&& !rooted && all.len() > n ==> all[n] != seq!['\u{1}']
            &&& own is None && is_dotted(style, path) ==> all.len() > 0 && all[0] == seq!['\u{2}']
        }),
{
    let own = prefix(style, path);
    let all = components(style, path);
    let lead = prefix_keys(own);
    let mid = root_keys(style, path) + dot_keys(style, path);
    let rest = counted_pieces(
        style,
        taken_verbatim(own),
        path.skip(body_start(style, path)),
    ).map_values(|piece: Seq<char>| component_key(piece));
    assert(all =~= lead + mid + rest);
    let n = lead.len() as int;
    let one: Seq<char> = seq!['\u{1}'];
    assert(one[0] == '\u{1}');
    if mid.len() > 0 {
        assert(all[n] == mid[0]);
        let two: Seq<char> = seq!['\u{2}'];
        assert(two[0] == '\u{2}');
    } else if all.len() > n {
        assert(all[n] == rest[0]);
        let piece = counted_pieces(
            style,
            taken_verbatim(own),
            path.skip(body_start(style, path)),
        )[0];
        assert(rest[0] == component_key(piece));
        assert(component_key(piece)[0] != '\u{1}');
    }
}

/// Below a path that is taken verbatim a plain name is put behind the names of
/// that path, all spelled anew with backslashes behind its prefix.
pub proof fn lemma_name_below_a_verbatim_path(base: Seq<char>, name: Seq<char>)
    requires
        taken_verbatim(prefix(PathStyle::Windows, base)),
        name.len() > 0,
        is_plain_name(name),
        forall|i: int|
            0 <= i < name.len() ==> !splits(PathStyle::Windows, false, #[trigger] name[i]),
        prefix(PathStyle::Windows, name) is None,
    ensures
        joined(PathStyle::Windows, base, name) == base.take(
            prefix_len(prefix(PathStyle::Windows, base)),
        ) + spelled(
            counted_pieces(
                PathStyle::Windows,
                true,
                base.skip(body_start(PathStyle::Windows, base)),
            ),
        ) + seq!['\\'] + name,
{
    let windows = PathStyle::Windows;
    let own = counted_pieces(windows, true, base.skip(body_start(windows, base)));
    assert(!splits(windows, false, name[0]));
    assert(!is_rooted(windows, name));
    assert(!is_dotted(windows, name)) by {
        if name[0] == '.' {
            if name.len() == 1 {
                assert(name =~= seq!['.']);
            } else {
                assert(!splits(windows, false, name[1]));
            }
        }
    }
    assert(body_start(windows, name) == 0);
    assert(name.skip(0) =~= name);
    lemma_unsplit_is_one_piece(windows, name);
    let keep = |piece: Seq<char>| counts(false, piece);
    reveal(Seq::filter);
    let none = Seq::<Seq<char>>::empty();
    none.lemma_filter_push(name, keep);
    assert(none.push(name) =~= seq![name]);
    assert(none.filter(keep) =~= none);
    assert(counted_pieces(windows, false, name) =~= seq![name]);
    lemma_following_pieces(own, none, name);
    lemma_following_pieces(own, own, name);
    assert(followed(own, seq![name]) == own.push(name));
    assert(spelled(own.push(name)) == spelled(own) + seq!['\\'] + name);
    let lead = base.take(prefix_len(prefix(windows, base)));
    assert(lead + (spelled(own) + seq!['\\'] + name) =~= lead + spelled(own) + seq!['\\'] + name);
}

proof fn lemma_unsplit_is_one_piece(style: PathStyle, name: Seq<char>)
    requires
        forall|i: int| 0 <= i < name.len() ==> !splits(style, false, #[trigger] name[i]),
    ensures
        pieces(style, false, name) == seq![name],
    decreases name.len(),
{
    if name.len() == 0 {
        assert(name =~= Seq::<char>::empty());
    } else {
        let front = name.drop_last();
        assert forall|i: int| 0 <= i < front.len() implies !splits(style, false, #[trigger] front[i]) by {
            assert(front[i] == name[i]);
        }
        lemma_unsplit_is_one_piece(style, front);
        assert(!splits(style, false, name[name.len() - 1]));
        assert(front.push(name.last()) =~= name);
        assert(pieces(style, false, name) =~= seq![name]);
    }
}

} // verus!
