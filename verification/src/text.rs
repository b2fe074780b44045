//! Text as a sequence of characters: the string operations the rest of the
//! library is specified with.

use vstd::prelude::*;

verus! {

/// `String::push` appends one character at the end of the string.
pub assume_specification[ String::push ](s: &mut String, ch: char)
    ensures
        final(s)@ == old(s)@.push(ch),
;

/// The views of a sequence of strings.
pub open spec fn texts(list: Seq<String>) -> Seq<Seq<char>> {
    list.map_values(|s: String| s@)
}

/// The view of an optional string.
pub open spec fn opt_text(s: Option<String>) -> Option<Seq<char>> {
    match s {
        Some(s) => Some(s@),
        None => None,
    }
}

/// The view of an optional borrowed string.
pub open spec fn opt_str(s: Option<&str>) -> Option<Seq<char>> {
    match s {
        Some(s) => Some(s@),
        None => None,
    }
}

/// The characters with the Unicode property `White_Space`.
pub open spec fn is_whitespace(c: char) -> bool {
    ||| '\u{9}' <= c <= '\u{d}'
    ||| c == '\u{20}'
    ||| c == '\u{85}'
    ||| c == '\u{a0}'
    ||| c == '\u{1680}'
    ||| '\u{2000}' <= c <= '\u{200a}'
    ||| c == '\u{2028}'
    ||| c == '\u{2029}'
    ||| c == '\u{202f}'
    ||| c == '\u{205f}'
    ||| c == '\u{3000}'
}

/// Whether a character is white space.
pub fn whitespace(c: char) -> (result: bool)
    ensures
        result == is_whitespace(c),
{
    ('\u{9}' <= c && c <= '\u{d}') || c == '\u{20}' || c == '\u{85}' || c == '\u{a0}'
        || c == '\u{1680}' || ('\u{2000}' <= c && c <= '\u{200a}') || c == '\u{2028}'
        || c == '\u{2029}' || c == '\u{202f}' || c == '\u{205f}' || c == '\u{3000}'
}

/// The characters of a string, in order.
pub fn chars_of(s: &str) -> (result: Vec<char>)
    ensures
        result@ == s@,
{
    let mut out: Vec<char> = Vec::new();
    for c in iter: s.chars()
        invariant
            iter.seq() == s@,
            out@ == s@.take(iter.index()),
    {
        out.push(c);
    }
    assert(s@.take(s@.len() as int) =~= s@);
    out
}

/// The string with the given characters.
pub fn string_of(chars: &[char]) -> (result: String)
    ensures
        result@ == chars@,
{
    let mut out = String::new();
    let mut i: usize = 0;
    while i < chars.len()
        invariant
            i <= chars.len(),
            out@ == chars@.take(i as int),
        decreases chars.len() - i,
    {
        out.push(chars[i]);
        i += 1;
        assert(chars@.take(i as int) =~= chars@.take(i - 1).push(chars@[i - 1]));
    }
    assert(chars@.take(i as int) =~= chars@);
    out
}

/// The text without its leading white space.
pub open spec fn trim_start(s: Seq<char>) -> Seq<char>
    decreases s.len(),
{
    if s.len() > 0 && is_whitespace(s[0]) {
        trim_start(s.skip(1))
    } else {
        s
    }
}

/// The text without its trailing white space.
pub open spec fn trim_end(s: Seq<char>) -> Seq<char>
    decreases s.len(),
{
    if s.len() > 0 && is_whitespace(s.last()) {
        trim_end(s.drop_last())
    } else {
        s
    }
}

/// The text without white space at either end.
pub open spec fn trim(s: Seq<char>) -> Seq<char> {
    trim_end(trim_start(s))
}

/// Every character is white space.
pub open spec fn is_blank(s: Seq<char>) -> bool {
    forall|i: int| 0 <= i < s.len() ==> is_whitespace(#[trigger] s[i])
}

proof fn lemma_trim_start(s: Seq<char>)
    ensures
        trim_start(s).len() <= s.len(),
        trim_start(s).len() > 0 ==> !is_whitespace(trim_start(s)[0]),
        trim_start(s).len() == 0 <==> is_blank(s),
        is_blank(trim_start(s)) <==> is_blank(s),
    decreases s.len(),
{
    if s.len() > 0 && is_whitespace(s[0]) {
        lemma_trim_start(s.skip(1));
        assert(is_blank(s) <==> is_blank(s.skip(1))) by {
            if is_blank(s.skip(1)) {
                assert forall|i: int| 0 <= i < s.len() implies is_whitespace(#[trigger] s[i]) by {
                    if i > 0 {
                        assert(s.skip(1)[i - 1] == s[i]);
                    }
                }
            }
        }
    }
}

proof fn lemma_trim_end(s: Seq<char>)
    ensures
        trim_end(s).len() <= s.len(),
        trim_end(s).len() > 0 ==> !is_whitespace(trim_end(s).last()),
        trim_end(s).len() == 0 <==> is_blank(s),
    decreases s.len(),
{
    if s.len() > 0 && is_whitespace(s.last()) {
        lemma_trim_end(s.drop_last());
        assert(is_blank(s) <==> is_blank(s.drop_last())) by {
            if is_blank(s.drop_last()) {
                assert forall|i: int| 0 <= i < s.len() implies is_whitespace(#[trigger] s[i]) by {
                    if i < s.len() - 1 {
                        assert(s.drop_last()[i] == s[i]);
                    }
                }
            }
        }
    }
}

/// Trimming leaves nothing exactly when the text is blank.
pub proof fn lemma_trim_empty_iff_blank(s: Seq<char>)
    ensures
        trim(s).len() == 0 <==> is_blank(s),
{
    lemma_trim_start(s);
    lemma_trim_end(trim_start(s));
}

/// The text without white space at either end.
pub fn trimmed(s: &str) -> (result: &str)
    ensures
        result@ == trim(s@),
{
    let chars = chars_of(s);
    let mut start: usize = 0;
    assert(chars@.skip(0) =~= chars@);
    while start < chars.len() && whitespace(chars[start])
        invariant
            start <= chars.len(),
            trim_start(chars@) == trim_start(chars@.skip(start as int)),
        decreases chars.len() - start,
    {
        assert(chars@.skip(start as int).skip(1) =~= chars@.skip(start + 1));
        start += 1;
    }
    let ghost body = chars@.skip(start as int);
    assert(trim_start(chars@) == body);
    let mut end: usize = chars.len();
    assert(body.take(end - start) =~= body);
    while end > start && whitespace(chars[end - 1])
        invariant
            start <= end <= chars.len(),
            body == chars@.skip(start as int),
            trim_end(body) == trim_end(body.take(end - start)),
        decreases end,
    {
        assert(body.take(end - start).drop_last() =~= body.take(end - start - 1));
        end -= 1;
    }
    assert(body.take(end - start) =~= s@.subrange(start as int, end as int));
    s.substring_char(start, end)
}

/// The text without its trailing white space.
pub fn trimmed_end(s: &str) -> (result: &str)
    ensures
        result@ == trim_end(s@),
{
    let chars = chars_of(s);
    let mut end: usize = chars.len();
    assert(s@.take(end as int) =~= s@);
    while end > 0 && whitespace(chars[end - 1])
        invariant
            end <= chars.len(),
            chars@ == s@,
            trim_end(s@) == trim_end(s@.take(end as int)),
        decreases end,
    {
        assert(s@.take(end as int).drop_last() =~= s@.take(end - 1));
        end -= 1;
    }
    assert(s@.take(end as int) =~= s@.subrange(0, end as int));
    s.substring_char(0, end)
}

/// Whether the text holds white space only.
pub fn blank(s: &str) -> (result: bool)
    ensures
        result == is_blank(s@),
        result == (trim(s@).len() == 0),
{
    proof {
        lemma_trim_empty_iff_blank(s@);
    }
    let chars = chars_of(s);
    let mut i: usize = 0;
    while i < chars.len()
        invariant
            i <= chars.len(),
            chars@ == s@,
            trim(s@).len() == 0 <==> is_blank(s@),
            forall|j: int| 0 <= j < i ==> is_whitespace(#[trigger] s@[j]),
        decreases chars.len() - i,
    {
        if !whitespace(chars[i]) {
            assert(!is_whitespace(s@[i as int]));
            return false;
        }
        i += 1;
    }
    true
}

/// How many characters come before the first white space.
pub open spec fn word_len(s: Seq<char>) -> nat
    decreases s.len(),
{
    if s.len() == 0 || is_whitespace(s[0]) {
        0
    } else {
        1 + word_len(s.skip(1))
    }
}

pub proof fn lemma_word_len(s: Seq<char>)
    ensures
        word_len(s) <= s.len(),
        forall|i: int| 0 <= i < word_len(s) ==> !is_whitespace(#[trigger] s[i]),
        word_len(s) < s.len() ==> is_whitespace(s[word_len(s) as int]),
    decreases s.len(),
{
    if s.len() > 0 && !is_whitespace(s[0]) {
        lemma_word_len(s.skip(1));
        assert forall|i: int| 0 <= i < word_len(s) implies !is_whitespace(#[trigger] s[i]) by {
            if i > 0 {
                assert(s.skip(1)[i - 1] == s[i]);
            }
        }
    }
}

/// The maximal runs of characters that are not white space, in order.
pub open spec fn words(s: Seq<char>) -> Seq<Seq<char>>
    decreases s.len(),
    via words_decreases
{
    let t = trim_start(s);
    if t.len() == 0 {
        Seq::empty()
    } else {
        seq![t.take(word_len(t) as int)] + words(t.skip(word_len(t) as int))
    }
}

#[via_fn]
proof fn words_decreases(s: Seq<char>) {
    lemma_trim_start(s);
    lemma_word_len(trim_start(s));
}

/// The parts one after the other, with the separator between neighbours.
pub open spec fn join(parts: Seq<Seq<char>>, sep: Seq<char>) -> Seq<char>
    decreases parts.len(),
{
    if parts.len() == 0 {
        Seq::empty()
    } else if parts.len() == 1 {
        parts[0]
    } else {
        parts[0] + sep + join(parts.skip(1), sep)
    }
}

/// The words of a text with one blank between neighbours.
pub open spec fn normalized(s: Seq<char>) -> Seq<char> {
    join(words(s), seq![' '])
}

/// A non-empty text without white space.
pub open spec fn is_word(s: Seq<char>) -> bool {
    s.len() > 0 && forall|i: int| 0 <= i < s.len() ==> !is_whitespace(#[trigger] s[i])
}

proof fn lemma_words_are_words(s: Seq<char>)
    ensures
        forall|k: int| 0 <= k < words(s).len() ==> is_word(#[trigger] words(s)[k]),
        words(s).len() == 0 <==> is_blank(s),
    decreases s.len(),
{
    let t = trim_start(s);
    lemma_trim_start(s);
    lemma_word_len(t);
    if t.len() > 0 {
        let n = word_len(t) as int;
        lemma_words_are_words(t.skip(n));
        assert forall|k: int| 0 <= k < words(s).len() implies is_word(#[trigger] words(s)[k]) by {
            if k == 0 {
                assert(words(s)[0] == t.take(n));
            } else {
                assert(words(s)[k] == words(t.skip(n))[k - 1]);
            }
        }
    }
}

proof fn lemma_word_len_of_word_then(w: Seq<char>, rest: Seq<char>)
    requires
        is_word(w),
        rest.len() == 0 || is_whitespace(rest[0]),
    ensures
        word_len(w + rest) == w.len(),
    decreases w.len(),
{
    let s = w + rest;
    assert(s[0] == w[0]);
    if w.len() == 1 {
        assert(s.skip(1) =~= rest);
        assert(word_len(rest) == 0);
    } else {
        assert(s.skip(1) =~= w.skip(1) + rest);
        assert(is_word(w.skip(1)));
        lemma_word_len_of_word_then(w.skip(1), rest);
    }
}

proof fn lemma_words_of_join(ws: Seq<Seq<char>>)
    requires
        forall|k: int| 0 <= k < ws.len() ==> is_word(#[trigger] ws[k]),
    ensures
        words(join(ws, seq![' '])) == ws,
    decreases ws.len(),
{
    let blank = seq![' '];
    if ws.len() == 0 {
        assert(words(join(ws, blank)) =~= ws);
    } else {
        let tail = ws.skip(1);
        let rest = if ws.len() == 1 { Seq::empty() } else { blank + join(tail, blank) };
        let s = join(ws, blank);
        assert(s =~= ws[0] + rest);
        assert(s[0] == ws[0][0]);
        assert(trim_start(s) == s);
        lemma_word_len_of_word_then(ws[0], rest);
        let n = ws[0].len() as int;
        assert(s.take(n) =~= ws[0]);
        assert(s.skip(n) =~= rest);
        if ws.len() == 1 {
            assert(words(rest) =~= Seq::empty());
        } else {
            assert(rest.skip(1) =~= join(tail, blank));
            assert(trim_start(rest) == trim_start(join(tail, blank)));
            assert(words(rest) == words(join(tail, blank)));
            lemma_words_of_join(tail);
        }
        assert(words(s) =~= ws);
    }
}

/// Normalizing a normalized text changes nothing.
pub proof fn lemma_normalized_idempotent(s: Seq<char>)
    ensures
        normalized(normalized(s)) == normalized(s),
{
    lemma_words_are_words(s);
    lemma_words_of_join(words(s));
}

/// A text normalizes to nothing exactly when it is blank.
pub proof fn lemma_normalized_empty_iff_blank(s: Seq<char>)
    ensures
        normalized(s).len() == 0 <==> is_blank(s),
{
    lemma_words_are_words(s);
    let ws = words(s);
    if ws.len() > 0 {
        assert(is_word(ws[0]));
    }
}

/// The maximal runs of characters that are not white space, in order.
pub fn split_words(s: &str) -> (result: Vec<String>)
    ensures
        texts(result@) == words(s@),
{
    let chars = chars_of(s);
    let mut out: Vec<String> = Vec::new();
    let mut i: usize = 0;
    assert(s@.skip(0) =~= s@);
    assert(texts(out@) + words(s@) =~= words(s@));
    loop
        invariant
            i <= chars.len(),
            chars@ == s@,
            texts(out@) + words(s@.skip(i as int)) == words(s@),
        ensures
            texts(out@) == words(s@),
        decreases chars.len() - i,
    {
        let ghost before = s@.skip(i as int);
        let mut start: usize = i;
        while start < chars.len() && whitespace(chars[start])
            invariant
                i <= start <= chars.len(),
                chars@ == s@,
                trim_start(s@.skip(i as int)) == trim_start(s@.skip(start as int)),
            decreases chars.len() - start,
        {
            assert(s@.skip(start as int).skip(1) =~= s@.skip(start + 1));
            start += 1;
        }
        let ghost t = s@.skip(start as int);
        assert(trim_start(before) == t);
        if start == chars.len() {
            assert(t.len() == 0);
            assert(texts(out@) + words(before) =~= texts(out@));
            break ;
        }
        let mut end: usize = start;
        assert(t.skip(0) =~= t);
        while end < chars.len() && !whitespace(chars[end])
            invariant
                start <= end <= chars.len(),
                chars@ == s@,
                t == s@.skip(start as int),
                word_len(t) == (end - start) + word_len(t.skip(end - start)),
            decreases chars.len() - end,
        {
            assert(t.skip(end - start)[0] == chars@[end as int]);
            assert(t.skip(end - start).skip(1) =~= t.skip(end - start + 1));
            end += 1;
        }
        proof {
            lemma_word_len(t);
            if end < chars.len() {
                assert(t.skip(end - start)[0] == chars@[end as int]);
            }
            assert(word_len(t) == end - start);
            assert(word_len(t) > 0);
        }
        let word = s.substring_char(start, end).to_owned();
        assert(word@ =~= t.take(end - start));
        let ghost old_out = out@;
        out.push(word);
        assert(texts(out@) =~= texts(old_out).push(word@));
        assert(t.skip(end - start) =~= s@.skip(end as int));
        assert(texts(out@) + words(s@.skip(end as int)) =~= texts(old_out) + words(before));
        i = end;
    }
    out
}

/// The parts one after the other, with the separator between neighbours.
pub fn join_texts(parts: &Vec<String>, sep: &str) -> (result: String)
    ensures
        result@ == join(texts(parts@), sep@),
{
    let mut out = String::new();
    let mut i: usize = 0;
    let ghost all = texts(parts@);
    assert(all.skip(0) =~= all);
    while i < parts.len()
        invariant
            i <= parts.len(),
            all == texts(parts@),
            i == 0 ==> out@.len() == 0,
            join(all, sep@) == out@ + (if 0 < i < all.len() { sep@ } else { Seq::empty() }) + join(
                all.skip(i as int),
                sep@,
            ),
        decreases parts.len() - i,
    {
        let ghost rest = all.skip(i as int);
        let ghost before = out@;
        assert(rest[0] == parts@[i as int]@);
        if i > 0 {
            out.append(sep);
        }
        out.append(parts[i].as_str());
        assert(rest.skip(1) =~= all.skip(i + 1));
        i += 1;
        assert(join(all, sep@) =~= out@ + (if 0 < i < all.len() { sep@ } else { Seq::empty() })
            + join(all.skip(i as int), sep@));
    }
    assert(out@ =~= join(all, sep@));
    out
}

/// The words of a text with one blank between neighbours.
pub fn normalize(s: &str) -> (result: String)
    ensures
        result@ == normalized(s@),
{
    let ws = split_words(s);
    proof {
        reveal_strlit(" ");
    }
    assert(" "@ =~= seq![' ']);
    join_texts(&ws, " ")
}

/// The digit with the given value.
pub open spec fn digit(d: nat) -> char {
    ('0' as nat + d) as char
}

/// A number in decimal notation.
pub open spec fn decimal(n: nat) -> Seq<char>
    decreases n,
{
    if n < 10 {
        seq![digit(n)]
    } else {
        decimal(n / 10).push(digit(n % 10))
    }
}

/// A signed number in decimal notation.
pub open spec fn signed_decimal(n: int) -> Seq<char> {
    if n < 0 {
        seq!['-'] + decimal((-n) as nat)
    } else {
        decimal(n as nat)
    }
}

/// A number in decimal notation.
pub fn decimal_text(n: u64) -> (result: String)
    ensures
        result@ == decimal(n as nat),
    decreases n,
{
    let mut out = if n < 10 {
        String::new()
    } else {
        decimal_text(n / 10)
    };
    let d: u8 = (n % 10) as u8;
    out.push((48u8 + d) as char);
    assert(out@ =~= decimal(n as nat));
    out
}

/// A signed number in decimal notation.
pub fn signed_decimal_text(n: i64) -> (result: String)
    ensures
        result@ == signed_decimal(n as int),
{
    if n < 0 {
        let magnitude: u64 = (-(n as i128)) as u64;
        let mut out = String::new();
        out.push('-');
        out.append(decimal_text(magnitude).as_str());
        assert(out@ =~= seq!['-'] + decimal((-n) as nat));
        out
    } else {
        decimal_text(n as u64)
    }
}

/// Whether one text begins with another.
pub fn starts_with(s: &str, prefix: &str) -> (result: bool)
    ensures
        result == prefix@.is_prefix_of(s@),
{
    let a = chars_of(s);
    let b = chars_of(prefix);
    if b.len() > a.len() {
        return false;
    }
    let mut i: usize = 0;
    while i < b.len()
        invariant
            i <= b.len() <= a.len(),
            a@ == s@,
            b@ == prefix@,
            forall|j: int| 0 <= j < i ==> a@[j] == b@[j],
        decreases b.len() - i,
    {
        if a[i] != b[i] {
            assert(s@.subrange(0, prefix@.len() as int)[i as int] != prefix@[i as int]);
            return false;
        }
        i += 1;
    }
    assert(prefix@ =~= s@.subrange(0, prefix@.len() as int));
    true
}

/// What follows a prefix, where the text begins with it.
pub fn strip_prefix<'a>(s: &'a str, prefix: &str) -> (result: Option<&'a str>)
    ensures
        result matches Some(rest) ==> prefix@.is_prefix_of(s@) && rest@ == s@.skip(
            prefix@.len() as int,
        ),
        result is None <==> !prefix@.is_prefix_of(s@),
{
    if starts_with(s, prefix) {
        let n: usize = prefix.unicode_len();
        let len: usize = s.unicode_len();
        assert(s@.subrange(n as int, len as int) =~= s@.skip(n as int));
        Some(s.substring_char(n, len))
    } else {
        None
    }
}

/// The text order of strings: by the first character that differs, a proper
/// prefix before the longer text.
pub open spec fn text_lt(a: Seq<char>, b: Seq<char>) -> bool
    decreases a.len(),
{
    if b.len() == 0 {
        false
    } else if a.len() == 0 {
        true
    } else if a[0] != b[0] {
        a[0] < b[0]
    } else {
        text_lt(a.skip(1), b.skip(1))
    }
}

pub proof fn lemma_text_lt_irreflexive(a: Seq<char>)
    ensures
        !text_lt(a, a),
    decreases a.len(),
{
    if a.len() > 0 {
        lemma_text_lt_irreflexive(a.skip(1));
    }
}

pub proof fn lemma_text_lt_transitive(a: Seq<char>, b: Seq<char>, c: Seq<char>)
    requires
        text_lt(a, b),
        text_lt(b, c),
    ensures
        text_lt(a, c),
    decreases a.len(),
{
    if a.len() > 0 && a[0] == b[0] && b[0] == c[0] {
        lemma_text_lt_transitive(a.skip(1), b.skip(1), c.skip(1));
    }
}

pub proof fn lemma_text_lt_total(a: Seq<char>, b: Seq<char>)
    ensures
        text_lt(a, b) || text_lt(b, a) || a == b,
    decreases a.len(),
{
    if a.len() > 0 && b.len() > 0 && a[0] == b[0] {
        lemma_text_lt_total(a.skip(1), b.skip(1));
        if a.skip(1) == b.skip(1) {
            assert(a =~= seq![a[0]] + a.skip(1));
            assert(b =~= seq![b[0]] + b.skip(1));
        }
    } else if a.len() == 0 && b.len() == 0 {
        assert(a =~= b);
    }
}

/// Not to come before is transitive.
pub proof fn lemma_text_not_lt_transitive(a: Seq<char>, b: Seq<char>, c: Seq<char>)
    requires
        !text_lt(a, b),
        !text_lt(b, c),
    ensures
        !text_lt(a, c),
{
    lemma_text_lt_total(a, b);
    lemma_text_lt_total(b, c);
    if text_lt(a, c) {
        if b != a && b != c {
            lemma_text_lt_transitive(c, b, a);
            lemma_text_lt_transitive(c, a, c);
            lemma_text_lt_irreflexive(c);
        }
    }
}

/// Whether one text comes before another.
pub fn text_less(a: &str, b: &str) -> (result: bool)
    ensures
        result == text_lt(a@, b@),
{
    let x = chars_of(a);
    let y = chars_of(b);
    let mut i: usize = 0;
    assert(x@.skip(0) =~= x@ && y@.skip(0) =~= y@);
    while i < x.len() && i < y.len()
        invariant
            i <= x.len(),
            i <= y.len(),
            x@ == a@,
            y@ == b@,
            text_lt(a@, b@) == text_lt(x@.skip(i as int), y@.skip(i as int)),
        decreases x.len() - i,
    {
        if x[i] != y[i] {
            return x[i] < y[i];
        }
        assert(x@.skip(i as int).skip(1) =~= x@.skip(i + 1));
        assert(y@.skip(i as int).skip(1) =~= y@.skip(i + 1));
        i += 1;
    }
    i < y.len()
}

/// Whether two texts are the same.
pub fn same_text(a: &str, b: &str) -> (result: bool)
    ensures
        result == (a@ == b@),
{
    let x = chars_of(a);
    let y = chars_of(b);
    if x.len() != y.len() {
        return false;
    }
    let mut i: usize = 0;
    while i < x.len()
        invariant
            i <= x.len(),
            x.len() == y.len(),
            x@ == a@,
            y@ == b@,
            forall|j: int| 0 <= j < i ==> x@[j] == y@[j],
        decreases x.len() - i,
    {
        if x[i] != y[i] {
            assert(a@[i as int] != b@[i as int]);
            return false;
        }
        i += 1;
    }
    assert(a@ =~= b@);
    true
}

/// Whether two optional texts are both absent or the same.
pub fn same_opt_text(a: Option<&str>, b: Option<&str>) -> (result: bool)
    ensures
        result == (opt_str(a) == opt_str(b)),
{
    match (a, b) {
        (Some(x), Some(y)) => same_text(x, y),
        (None, None) => true,
        _ => false,
    }
}

/// How many characters come before the first occurrence of the given one; all
/// where it does not occur.
pub open spec fn first_pos(s: Seq<char>, c: char) -> nat
    decreases s.len(),
{
    if s.len() == 0 || s[0] == c {
        0
    } else {
        1 + first_pos(s.skip(1), c)
    }
}

pub proof fn lemma_first_pos(s: Seq<char>, c: char)
    ensures
        first_pos(s, c) <= s.len(),
        first_pos(s, c) < s.len() ==> s[first_pos(s, c) as int] == c,
        forall|i: int| 0 <= i < first_pos(s, c) ==> s[i] != c,
        first_pos(s, c) < s.len() <==> s.contains(c),
    decreases s.len(),
{
    if s.len() > 0 {
        if s[0] == c {
            assert(s.contains(c));
        } else {
            let rest = s.skip(1);
            lemma_first_pos(rest, c);
            assert forall|i: int| 0 <= i < first_pos(s, c) implies s[i] != c by {
                if i > 0 {
                    assert(rest[i - 1] == s[i]);
                }
            }
            if s.contains(c) {
                let i = choose|i: int| 0 <= i < s.len() && s[i] == c;
                assert(rest[i - 1] == c);
            }
            if rest.contains(c) {
                let i = choose|i: int| 0 <= i < rest.len() && rest[i] == c;
                assert(s[i + 1] == c);
            }
        }
    }
}

/// The text before and after the first occurrence of a character.
pub fn split_once(s: &str, c: char) -> (result: Option<(&str, &str)>)
    ensures
        result is Some <==> s@.contains(c),
        result matches Some((before, after)) ==> {
            &&& before@ == s@.take(first_pos(s@, c) as int)
            &&& after@ == s@.skip((first_pos(s@, c) + 1) as int)
        },
{
    let chars = chars_of(s);
    let mut i: usize = 0;
    proof {
        lemma_first_pos(s@, c);
        assert(s@.skip(0) =~= s@);
    }
    while i < chars.len() && chars[i] != c
        invariant
            i <= chars.len(),
            chars@ == s@,
            first_pos(s@, c) == i + first_pos(s@.skip(i as int), c),
        decreases chars.len() - i,
    {
        assert(s@.skip(i as int)[0] == chars@[i as int]);
        assert(s@.skip(i as int).skip(1) =~= s@.skip(i + 1));
        i += 1;
    }
    if i == chars.len() {
        assert(s@.skip(i as int).len() == 0);
        return None;
    }
    assert(s@.skip(i as int)[0] == chars@[i as int]);
    assert(s@.subrange(0, i as int) =~= s@.take(i as int));
    assert(s@.subrange(i + 1, chars@.len() as int) =~= s@.skip(i + 1));
    Some((s.substring_char(0, i), s.substring_char(i + 1, chars.len())))
}

/// The character in lower case, where it is an ASCII letter.
pub open spec fn ascii_lower(c: char) -> char {
    if 'A' <= c <= 'Z' {
        (c as nat + 32) as char
    } else {
        c
    }
}

/// The text with its ASCII letters in lower case.
pub open spec fn ascii_lowered(s: Seq<char>) -> Seq<char> {
    s.map_values(|c: char| ascii_lower(c))
}

pub(crate) fn lower_char(c: char) -> (result: char)
    ensures
        result == ascii_lower(c),
{
    if 'A' <= c && c <= 'Z' {
        let code: u8 = (c as u32) as u8;
        (code + 32) as char
    } else {
        c
    }
}

/// The text with its ASCII letters in lower case.
pub fn to_ascii_lowered(s: &str) -> (result: String)
    ensures
        result@ == ascii_lowered(s@),
{
    let chars = chars_of(s);
    let mut out = String::new();
    let mut i: usize = 0;
    while i < chars.len()
        invariant
            i <= chars.len(),
            chars@ == s@,
            out@ == ascii_lowered(s@.take(i as int)),
        decreases chars.len() - i,
    {
        out.push(lower_char(chars[i]));
        i += 1;
        assert(out@ =~= ascii_lowered(s@.take(i as int)));
    }
    assert(s@.take(i as int) =~= s@);
    out
}

/// One text stands in another at the given place.
pub open spec fn occurs_at(s: Seq<char>, part: Seq<char>, i: int) -> bool {
    0 <= i && i + part.len() <= s.len() && s.subrange(i, i + part.len()) == part
}

/// The first place at which one text stands in another.
pub fn find_text(s: &str, part: &str) -> (result: Option<usize>)
    ensures
        match result {
            Some(at) => occurs_at(s@, part@, at as int) && forall|j: int|
                0 <= j < at ==> !(#[trigger] occurs_at(s@, part@, j)),
            None => forall|j: int| !(#[trigger] occurs_at(s@, part@, j)),
        },
{
    let a = chars_of(s);
    let b = chars_of(part);
    if b.len() > a.len() {
        return None;
    }
    let last: usize = a.len() - b.len();
    let mut at: usize = 0;
    loop
        invariant
            a@ == s@,
            b@ == part@,
            b.len() <= a.len(),
            last == a.len() - b.len(),
            at <= last,
            forall|j: int| 0 <= j < at ==> !(#[trigger] occurs_at(s@, part@, j)),
        decreases last - at,
    {
        let mut k: usize = 0;
        while k < b.len() && a[at + k] == b[k]
            invariant
                a@ == s@,
                b@ == part@,
                k <= b.len(),
                at + b.len() <= a.len(),
                forall|j: int| 0 <= j < k ==> a@[at + j] == b@[j],
            decreases b.len() - k,
        {
            k += 1;
        }
        if k == b.len() {
            assert(s@.subrange(at as int, at + part@.len()) =~= part@);
            return Some(at);
        }
        assert(!occurs_at(s@, part@, at as int)) by {
            assert(s@.subrange(at as int, at + part@.len())[k as int] == a@[at + k]);
        }
        if at == last {
            return None;
        }
        at += 1;
    }
}

/// How many bytes a character takes in UTF-8.
pub open spec fn utf8_width(c: char) -> nat {
    if c as u32 <= 0x7f {
        1
    } else if c as u32 <= 0x7ff {
        2
    } else if c as u32 <= 0xffff {
        3
    } else {
        4
    }
}

/// How many bytes a text takes in UTF-8.
pub open spec fn byte_len(s: Seq<char>) -> nat
    decreases s.len(),
{
    if s.len() == 0 {
        0
    } else {
        utf8_width(s[0]) + byte_len(s.drop_first())
    }
}

proof fn lemma_byte_len(s: Seq<char>)
    ensures
        vstd::utf8::encode_utf8(s).len() == byte_len(s),
    decreases s.len(),
{
    if s.len() > 0 {
        vstd::utf8::char_is_scalar(s[0]);
        lemma_byte_len(s.drop_first());
    }
}

/// How many bytes the first so many characters of a text take.
pub fn byte_offset(s: &str, chars: usize) -> (result: usize)
    requires
        chars <= s@.len(),
    ensures
        result == byte_len(s@.take(chars as int)),
{
    let front = s.substring_char(0, chars);
    assert(front@ =~= s@.take(chars as int));
    proof {
        lemma_byte_len(front@);
    }
    front.as_bytes().len()
}

/// White space are tab to carriage return, the blank, next line, the no-break
/// space, the Ogham space, the spaces from 2000 to 200A, the line and the
/// paragraph separator, and the spaces 202F, 205F and 3000.
pub proof fn lemma_white_space(c: char)
    ensures
        is_whitespace(c) <==> {
            let code = c as u32;
            ||| 9 <= code <= 13
            ||| code == 32
            ||| code == 133
            ||| code == 160
            ||| code == 5760
            ||| 8192 <= code <= 8202
            ||| code == 8232
            ||| code == 8233
            ||| code == 8239
            ||| code == 8287
            ||| code == 12288
        },
{
}

proof fn lemma_trim_start_cuts(s: Seq<char>) -> (at: int)
    ensures
        0 <= at <= s.len(),
        trim_start(s) == s.skip(at),
        forall|i: int| 0 <= i < at ==> is_whitespace(#[trigger] s[i]),
        at < s.len() ==> !is_whitespace(s[at]),
    decreases s.len(),
{
    if s.len() > 0 && is_whitespace(s[0]) {
        let rest = s.skip(1);
        let at = lemma_trim_start_cuts(rest);
        assert(rest.skip(at) =~= s.skip(at + 1));
        assert forall|i: int| 0 <= i < at + 1 implies is_whitespace(#[trigger] s[i]) by {
            if i > 0 {
                assert(rest[i - 1] == s[i]);
            }
        }
        if at < rest.len() {
            assert(rest[at] == s[at + 1]);
        }
        at + 1
    } else {
        assert(s.skip(0) =~= s);
        0
    }
}

/// Cutting off trailing white space keeps the start of the text: nothing but
/// white space goes, and what is kept does not end in any.
pub proof fn lemma_trim_end_keeps_the_start(s: Seq<char>) -> (at: int)
    ensures
        0 <= at <= s.len(),
        trim_end(s) == s.take(at),
        forall|i: int| at <= i < s.len() ==> is_whitespace(#[trigger] s[i]),
        at > 0 ==> !is_whitespace(s[at - 1]),
    decreases s.len(),
{
    if s.len() > 0 && is_whitespace(s.last()) {
        let front = s.drop_last();
        let at = lemma_trim_end_keeps_the_start(front);
        assert(front.take(at) =~= s.take(at));
        assert forall|i: int| at <= i < s.len() implies is_whitespace(#[trigger] s[i]) by {
            if i < front.len() {
                assert(front[i] == s[i]);
            }
        }
        at
    } else {
        assert(s.take(s.len() as int) =~= s);
        s.len() as int
    }
}

/// Trimming keeps the middle of a text: nothing but white space goes at either
/// end, and what is kept neither begins nor ends with any.
pub proof fn lemma_trim_keeps_the_middle(s: Seq<char>) -> (span: (int, int))
    ensures
        0 <= span.0 <= span.1 <= s.len(),
        trim(s) == s.subrange(span.0, span.1),
        forall|i: int| 0 <= i < span.0 ==> is_whitespace(#[trigger] s[i]),
        forall|i: int| span.1 <= i < s.len() ==> is_whitespace(#[trigger] s[i]),
        span.0 < span.1 ==> !is_whitespace(s[span.0]) && !is_whitespace(s[span.1 - 1]),
{
    let from = lemma_trim_start_cuts(s);
    let rest = s.skip(from);
    let kept = lemma_trim_end_keeps_the_start(rest);
    let to = from + kept;
    assert(trim(s) =~= s.subrange(from, to));
    assert forall|i: int| to <= i < s.len() implies is_whitespace(#[trigger] s[i]) by {
        assert(rest[i - from] == s[i]);
    }
    if kept > 0 {
        assert(rest[kept - 1] == s[to - 1]);
    }
    (from, to)
}

/// The words of a text: one that begins with white space has the words of the
/// rest; one that begins with a word that white space or the end follows has
/// that word and the words of the rest; nothing has none.
pub proof fn lemma_words_one_by_one(space: char, word: Seq<char>, rest: Seq<char>)
    requires
        is_whitespace(space),
        is_word(word),
    ensures
        words(Seq::empty()).len() == 0,
        words(seq![space] + rest) == words(rest),
        rest.len() == 0 || is_whitespace(rest[0]) ==> words(word + rest) == seq![word] + words(
            rest,
        ),
{
    let spaced = seq![space] + rest;
    assert(spaced.skip(1) =~= rest);
    assert(trim_start(spaced) == trim_start(rest));
    if trim_start(rest).len() == 0 {
        assert(words(spaced) =~= words(rest));
    }
    if rest.len() == 0 || is_whitespace(rest[0]) {
        lemma_word_len_of_word_then(word, rest);
        let all = word + rest;
        assert(trim_start(all) == all);
        assert(all.take(word.len() as int) =~= word);
        assert(all.skip(word.len() as int) =~= rest);
    }
}

/// Joining: nothing joins to nothing and one part to itself; one more part
/// comes at the end, behind one more separator.
pub proof fn lemma_join_one_by_one(parts: Seq<Seq<char>>, part: Seq<char>, sep: Seq<char>)
    ensures
        join(Seq::empty(), sep).len() == 0,
        join(seq![part], sep) == part,
        parts.len() > 0 ==> join(parts.push(part), sep) == join(parts, sep) + sep + part,
    decreases parts.len(),
{
    if parts.len() == 1 {
        let both = parts.push(part);
        assert(both.skip(1) =~= seq![part]);
        assert(join(both.skip(1), sep) == part);
        assert(join(both, sep) =~= join(parts, sep) + sep + part);
    } else if parts.len() > 1 {
        let all = parts.push(part);
        lemma_join_one_by_one(parts.skip(1), part, sep);
        assert(all.skip(1) =~= parts.skip(1).push(part));
        assert(join(all, sep) =~= join(parts, sep) + sep + part);
    }
}

/// The number that digits show.
pub open spec fn number_shown(digits: Seq<char>) -> int
    decreases digits.len(),
{
    if digits.len() == 0 {
        0
    } else {
        number_shown(digits.drop_last()) * 10 + (digits.last() as int - '0' as int)
    }
}

/// A number in decimal notation is made of digits that show the number, with
/// no zero at the front of a longer one.
pub proof fn lemma_decimal_shows_the_number(n: nat)
    ensures
        decimal(n).len() > 0,
        forall|i: int| 0 <= i < decimal(n).len() ==> '0' <= #[trigger] decimal(n)[i] <= '9',
        number_shown(decimal(n)) == n,
        decimal(n).len() > 1 ==> decimal(n)[0] != '0',
        n > 0 ==> decimal(n)[0] != '0',
    decreases n,
{
    if n < 10 {
        assert(decimal(n).drop_last() =~= Seq::<char>::empty());
        assert(number_shown(Seq::<char>::empty()) == 0);
    } else {
        lemma_decimal_shows_the_number(n / 10);
        assert(decimal(n).drop_last() =~= decimal(n / 10));
        assert(decimal(n)[0] == decimal(n / 10)[0]);
    }
}

/// A negative number has a minus sign before the digits of its amount.
pub proof fn lemma_signed_decimal_shows_the_number(n: int)
    ensures
        n >= 0 ==> number_shown(signed_decimal(n)) == n && signed_decimal(n)[0] != '-',
        n < 0 ==> signed_decimal(n)[0] == '-' && number_shown(signed_decimal(n).skip(1)) == -n,
{
    if n < 0 {
        lemma_decimal_shows_the_number((-n) as nat);
        assert(signed_decimal(n).skip(1) =~= decimal((-n) as nat));
    } else {
        lemma_decimal_shows_the_number(n as nat);
    }
}

/// Texts are ordered by the first character in which they differ; one that
/// ends there comes first.
pub proof fn lemma_text_lt_at_first_difference(a: Seq<char>, b: Seq<char>, k: int)
    requires
        0 <= k <= a.len(),
        k < b.len(),
        a.take(k) == b.take(k),
        k == a.len() || a[k] < b[k],
    ensures
        text_lt(a, b),
        !text_lt(b, a),
    decreases k,
{
    if k > 0 {
        assert(a[0] == a.take(k)[0]);
        assert(b[0] == b.take(k)[0]);
        assert(a.skip(1).take(k - 1) =~= a.take(k).skip(1));
        assert(b.skip(1).take(k - 1) =~= b.take(k).skip(1));
        lemma_text_lt_at_first_difference(a.skip(1), b.skip(1), k - 1);
    }
}

/// Lowering turns the letters A to Z into a to z, each 32 places further, and
/// leaves every other character; the text stays as long.
pub proof fn lemma_lowered(s: Seq<char>, i: int)
    requires
        0 <= i < s.len(),
    ensures
        ascii_lowered(s).len() == s.len(),
        'A' <= s[i] <= 'Z' ==> ascii_lowered(s)[i] as int == s[i] as int + 32 && 'a'
            <= ascii_lowered(s)[i] <= 'z',
        s[i] < 'A' || s[i] > 'Z' ==> ascii_lowered(s)[i] == s[i],
{
}

/// The bytes that a text is said to take are those of its UTF-8 form.
pub proof fn lemma_byte_len_is_utf8(s: Seq<char>)
    ensures
        vstd::utf8::encode_utf8(s).len() == byte_len(s),
{
    lemma_byte_len(s);
}

} // verus!
