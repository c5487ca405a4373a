//! Text as sequences of characters: trimming, splitting, searching and joining.
//!
//! Every function here takes and gives ordinary strings, and its contract speaks
//! of their characters. The specification functions are what the rest of the
//! crate states its own contracts with.
use vstd::prelude::*;

verus! {

/// `String::push`: the character is appended at the end.
pub assume_specification[ String::push ](s: &mut String, c: char)
    ensures
        final(s)@ == old(s)@.push(c),
;

/// `String::push_str`: the characters of the slice are appended at the end.
pub assume_specification[ String::push_str ](s: &mut String, other: &str)
    ensures
        final(s)@ == old(s)@ + other@,
;

// ── Character classes ─────────────────────────────────────────────────────

/// A set of characters that text is trimmed of or split at.
#[derive(Clone, Copy)]
pub enum CharClass {
    /// The characters with the Unicode property `White_Space`.
    White,
    /// One single character.
    Is(char),
    /// Line feed and carriage return.
    LineBreak,
    /// What stands between a key and its value in a compose file: `:`, ` `, `=` and `"`.
    Assign,
}

/// The characters with the Unicode property `White_Space`.
pub open spec fn is_white(c: char) -> bool {
    ||| '\u{9}' <= c <= '\u{d}'
    ||| c == '\u{20}'
    ||| c == '\u{85}'
    ||| c == '\u{a0}'
    ||| c == '\u{1680}'
    ||| '\u{2000}' <= c <= '\u{200a}'
    ||| c == '\u{2028}'
    ||| c == '\u{2029}'
    ||| c == '\u{202f}'
    ||| c == '\u{205f}'
    ||| c == '\u{3000}'
}

impl CharClass {
    /// Whether the class holds the character.
    pub open spec fn has(self, c: char) -> bool {
        match self {
            CharClass::White => is_white(c),
            CharClass::Is(d) => c == d,
            CharClass::LineBreak => c == '\n' || c == '\r',
            CharClass::Assign => c == ':' || c == ' ' || c == '=' || c == '"',
        }
    }

    /// Whether the class holds the character.
    pub fn holds(self, c: char) -> (r: bool)
        ensures
            r == self.has(c),
    {
        match self {
            CharClass::White => {
                ('\u{9}' <= c && c <= '\u{d}') || c == '\u{20}' || c == '\u{85}' || c == '\u{a0}'
                    || c == '\u{1680}' || ('\u{2000}' <= c && c <= '\u{200a}') || c == '\u{2028}'
                    || c == '\u{2029}' || c == '\u{202f}' || c == '\u{205f}' || c == '\u{3000}'
            },
            CharClass::Is(d) => c == d,
            CharClass::LineBreak => c == '\n' || c == '\r',
            CharClass::Assign => c == ':' || c == ' ' || c == '=' || c == '"',
        }
    }
}

// ── Specification ─────────────────────────────────────────────────────────

/// The characters of each string of a list.
pub open spec fn views(list: Seq<String>) -> Seq<Seq<char>> {
    list.map_values(|s: String| s@)
}

/// The characters of an optional string.
pub open spec fn opt_view(s: Option<String>) -> Option<Seq<char>> {
    match s {
        Some(t) => Some(t@),
        None => None,
    }
}

/// The characters of the strings of an optional list.
pub open spec fn opt_views(list: Option<Vec<String>>) -> Option<Seq<Seq<char>>> {
    match list {
        Some(v) => Some(views(v@)),
        None => None,
    }
}

/// The characters of an optional string slice.
pub open spec fn opt_str_view(s: Option<&str>) -> Option<Seq<char>> {
    match s {
        Some(t) => Some(t@),
        None => None,
    }
}

/// The text without its leading characters of the class.
pub open spec fn trim_start(s: Seq<char>, class: CharClass) -> Seq<char>
    decreases s.len(),
{
    if s.len() > 0 && class.has(s[0]) {
        trim_start(s.drop_first(), class)
    } else {
        s
    }
}

/// The text without its trailing characters of the class.
pub open spec fn trim_end(s: Seq<char>, class: CharClass) -> Seq<char>
    decreases s.len(),
{
    if s.len() > 0 && class.has(s.last()) {
        trim_end(s.drop_last(), class)
    } else {
        s
    }
}

/// The text without its leading and trailing characters of the class.
pub open spec fn trim_class(s: Seq<char>, class: CharClass) -> Seq<char> {
    trim_end(trim_start(s, class), class)
}

/// The text without white space at its ends.
pub open spec fn trimmed(s: Seq<char>) -> Seq<char> {
    trim_class(s, CharClass::White)
}

/// The pieces between the separators, empty ones too; text without a separator is one piece.
pub open spec fn split_at_class(s: Seq<char>, class: CharClass) -> Seq<Seq<char>>
    decreases s.len(),
{
    if s.len() == 0 {
        seq![Seq::<char>::empty()]
    } else {
        let before = split_at_class(s.drop_last(), class);
        if class.has(s.last()) {
            before.push(Seq::<char>::empty())
        } else {
            before.drop_last().push(before.last().push(s.last()))
        }
    }
}

/// The pieces that are not empty, in their order.
pub open spec fn nonempty(pieces: Seq<Seq<char>>) -> Seq<Seq<char>>
    decreases pieces.len(),
{
    if pieces.len() == 0 {
        Seq::empty()
    } else if pieces.last().len() == 0 {
        nonempty(pieces.drop_last())
    } else {
        nonempty(pieces.drop_last()).push(pieces.last())
    }
}

/// The pieces, each without white space at its ends.
pub open spec fn trimmed_each(pieces: Seq<Seq<char>>) -> Seq<Seq<char>> {
    pieces.map_values(|p: Seq<char>| trimmed(p))
}

/// The maximal runs of characters that are not white space.
pub open spec fn words(s: Seq<char>) -> Seq<Seq<char>> {
    nonempty(split_at_class(s, CharClass::White))
}

/// Whether the pattern stands in the text at that position.
pub open spec fn occurs_at(s: Seq<char>, pattern: Seq<char>, at: int) -> bool {
    0 <= at && at + pattern.len() <= s.len() && s.subrange(at, at + pattern.len()) == pattern
}

/// Whether the pattern stands anywhere in the text.
pub open spec fn has_text(s: Seq<char>, pattern: Seq<char>) -> bool {
    exists|at: int| occurs_at(s, pattern, at)
}

/// Whether the text begins with the pattern.
pub open spec fn begins(s: Seq<char>, pattern: Seq<char>) -> bool {
    occurs_at(s, pattern, 0)
}

/// Whether the text ends with the pattern.
pub open spec fn ends(s: Seq<char>, pattern: Seq<char>) -> bool {
    occurs_at(s, pattern, s.len() - pattern.len())
}

/// Whether the position is the first at which the pattern stands in the text.
pub open spec fn first_at(s: Seq<char>, pattern: Seq<char>, at: int) -> bool {
    occurs_at(s, pattern, at) && forall|i: int| 0 <= i < at ==> !occurs_at(s, pattern, i)
}

/// The first position at which the pattern stands in the text, where it stands there.
pub open spec fn first_index(s: Seq<char>, pattern: Seq<char>) -> int {
    choose|at: int| first_at(s, pattern, at)
}

/// Whether the first text comes before the second: by the first character in which they
/// differ, or because it is where the second goes on.
pub open spec fn text_less(a: Seq<char>, b: Seq<char>) -> bool {
    exists|i: int| less_at(a, b, i)
}

/// Whether the first text comes before the second by what they hold at that position.
pub open spec fn less_at(a: Seq<char>, b: Seq<char>, i: int) -> bool {
    &&& 0 <= i <= a.len()
    &&& i < b.len()
    &&& a.take(i) == b.take(i)
    &&& i == a.len() || a[i] < b[i]
}

/// Each line followed by a line feed, one after the other.
pub open spec fn unlines(lines: Seq<Seq<char>>) -> Seq<char>
    decreases lines.len(),
{
    if lines.len() == 0 {
        Seq::empty()
    } else {
        unlines(lines.drop_last()) + lines.last().push('\n')
    }
}

/// The pieces one after the other, with the separator between neighbours.
pub open spec fn joined(pieces: Seq<Seq<char>>, separator: Seq<char>) -> Seq<char>
    decreases pieces.len(),
{
    if pieces.len() == 0 {
        Seq::empty()
    } else if pieces.len() == 1 {
        pieces[0]
    } else {
        joined(pieces.drop_last(), separator) + separator + pieces.last()
    }
}

/// The character with `A` to `Z` made lower case.
pub open spec fn ascii_lower_char(c: char) -> char {
    if 'A' <= c <= 'Z' {
        (c as u32 + 32) as char
    } else {
        c
    }
}

/// The text with `A` to `Z` made lower case.
pub open spec fn ascii_lower(s: Seq<char>) -> Seq<char> {
    s.map_values(|c: char| ascii_lower_char(c))
}

// ── Characters and strings ────────────────────────────────────────────────

/// The characters of a string.
pub fn chars_of(s: &str) -> (r: Vec<char>)
    ensures
        r@ == s@,
{
    let mut out: Vec<char> = Vec::new();
    for c in it: s.chars()
        invariant
            it.seq() == s@,
            out@ == s@.take(it.index()),
    {
        out.push(c);
    }
    out
}

/// The string of the characters from `from` up to `to`.
pub fn string_of(v: &Vec<char>, from: usize, to: usize) -> (r: String)
    requires
        from <= to <= v@.len(),
    ensures
        r@ == v@.subrange(from as int, to as int),
{
    let mut out = String::new();
    let mut i: usize = from;
    while i < to
        invariant
            from <= i <= to <= v@.len(),
            out@ == v@.subrange(from as int, i as int),
        decreases to - i,
    {
        out.push(v[i]);
        i += 1;
    }
    out
}

/// Whether two strings are equal.
pub fn same(a: &str, b: &str) -> (r: bool)
    ensures
        r == (a@ == b@),
{
    a.to_owned() == b.to_owned()
}

/// One string after the other.
pub fn cat(a: &str, b: &str) -> (r: String)
    ensures
        r@ == a@ + b@,
{
    let mut out = a.to_owned();
    out.push_str(b);
    out
}

/// Three strings, one after the other.
pub fn cat3(a: &str, b: &str, c: &str) -> (r: String)
    ensures
        r@ == a@ + b@ + c@,
{
    let mut out = a.to_owned();
    out.push_str(b);
    out.push_str(c);
    out
}

/// A copy of a list of strings.
pub fn copy_strings(list: &Vec<String>) -> (r: Vec<String>)
    ensures
        views(r@) == views(list@),
{
    let mut out: Vec<String> = Vec::new();
    let mut i: usize = 0;
    while i < list.len()
        invariant
            i <= list.len(),
            views(out@) == views(list@).take(i as int),
        decreases list.len() - i,
    {
        let ghost before = views(out@);
        out.push(list[i].clone());
        proof {
            assert(views(out@) =~= before.push(list@[i as int]@));
            assert(views(out@) =~= views(list@).take(i + 1));
        }
        i += 1;
    }
    proof {
        assert(views(list@).take(i as int) =~= views(list@));
    }
    out
}

/// A copy of an optional list of strings.
pub fn copy_opt_strings(list: &Option<Vec<String>>) -> (r: Option<Vec<String>>)
    ensures
        opt_views(r) == opt_views(*list),
{
    match list {
        Some(v) => Some(copy_strings(v)),
        None => None,
    }
}

/// A copy of an optional string.
pub fn copy_opt(s: &Option<String>) -> (r: Option<String>)
    ensures
        opt_view(r) == opt_view(*s),
{
    match s {
        Some(t) => Some(t.clone()),
        None => None,
    }
}

/// Whether the list holds the string.
pub fn list_has(list: &Vec<String>, s: &str) -> (r: bool)
    ensures
        r == views(list@).contains(s@),
{
    let mut i: usize = 0;
    while i < list.len()
        invariant
            i <= list.len(),
            forall|j: int| 0 <= j < i ==> views(list@)[j] != s@,
        decreases list.len() - i,
    {
        if same(list[i].as_str(), s) {
            proof {
                assert(views(list@)[i as int] == s@);
            }
            return true;
        }
        i += 1;
    }
    false
}

// ── Trimming ──────────────────────────────────────────────────────────────

proof fn lemma_trim_start_skip(s: Seq<char>, class: CharClass, n: int)
    requires
        0 <= n <= s.len(),
        forall|i: int| 0 <= i < n ==> class.has(#[trigger] s[i]),
    ensures
        trim_start(s, class) == trim_start(s.skip(n), class),
    decreases n,
{
    if n == 0 {
        assert(s.skip(0) =~= s);
    } else {
        let rest = s.drop_first();
        assert forall|i: int| 0 <= i < n - 1 implies class.has(#[trigger] rest[i]) by {
            assert(rest[i] == s[i + 1]);
        }
        lemma_trim_start_skip(rest, class, n - 1);
        assert(rest.skip(n - 1) =~= s.skip(n));
        assert(class.has(s[0]));
    }
}

proof fn lemma_trim_end_take(s: Seq<char>, class: CharClass, n: int)
    requires
        0 <= n <= s.len(),
        forall|i: int| n <= i < s.len() ==> class.has(#[trigger] s[i]),
    ensures
        trim_end(s, class) == trim_end(s.take(n), class),
    decreases s.len() - n,
{
    if n == s.len() {
        assert(s.take(n) =~= s);
    } else {
        let rest = s.drop_last();
        lemma_trim_end_take(rest, class, n);
        assert(rest.take(n) =~= s.take(n));
        assert(class.has(s.last()));
    }
}

/// Text whose first and last characters are outside the class loses only the characters
/// of the class around it.
pub proof fn lemma_trim_around(s: Seq<char>, class: CharClass, from: int, to: int)
    requires
        0 <= from < to <= s.len(),
        forall|i: int| 0 <= i < from ==> class.has(#[trigger] s[i]),
        forall|i: int| to <= i < s.len() ==> class.has(#[trigger] s[i]),
        !class.has(s[from]),
        !class.has(s[to - 1]),
    ensures
        trim_start(s, class) == s.skip(from),
        trim_class(s, class) == s.subrange(from, to),
{
    lemma_trim_start_skip(s, class, from);
    let t = s.skip(from);
    assert(t[0] == s[from]);
    assert forall|i: int| to - from <= i < t.len() implies class.has(#[trigger] t[i]) by {
        assert(t[i] == s[i + from]);
    }
    lemma_trim_end_take(t, class, to - from);
    assert(t.take(to - from) =~= s.subrange(from, to));
    assert(s.subrange(from, to).last() == s[to - 1]);
}

/// Only the leading characters of the class are taken from the front.
pub proof fn lemma_trim_start_at(s: Seq<char>, class: CharClass, n: int)
    requires
        0 <= n < s.len(),
        forall|i: int| 0 <= i < n ==> class.has(#[trigger] s[i]),
        !class.has(s[n]),
    ensures
        trim_start(s, class) == s.skip(n),
{
    lemma_trim_start_skip(s, class, n);
    assert(s.skip(n)[0] == s[n]);
}

proof fn lemma_trim_end_first(s: Seq<char>, class: CharClass)
    requires
        s.len() > 0,
        !class.has(s[0]),
    ensures
        trim_end(s, class).len() > 0,
        trim_end(s, class)[0] == s[0],
    decreases s.len(),
{
    if class.has(s.last()) {
        lemma_trim_end_first(s.drop_last(), class);
    }
}

/// Trimmed text begins with the first character outside the class.
pub proof fn lemma_trim_first(s: Seq<char>, class: CharClass, n: int)
    requires
        0 <= n < s.len(),
        forall|i: int| 0 <= i < n ==> class.has(#[trigger] s[i]),
        !class.has(s[n]),
    ensures
        trim_class(s, class).len() > 0,
        trim_class(s, class)[0] == s[n],
{
    lemma_trim_start_at(s, class, n);
    lemma_trim_end_first(s.skip(n), class);
}

proof fn lemma_trim_start_range(s: Seq<char>, class: CharClass) -> (from: int)
    ensures
        0 <= from <= s.len(),
        trim_start(s, class) == s.skip(from),
        from < s.len() ==> !class.has(s[from]),
    decreases s.len(),
{
    if s.len() > 0 && class.has(s[0]) {
        let from = lemma_trim_start_range(s.drop_first(), class);
        assert(s.drop_first().skip(from) =~= s.skip(from + 1));
        from + 1
    } else {
        assert(s.skip(0) =~= s);
        0
    }
}

proof fn lemma_trim_end_range(s: Seq<char>, class: CharClass) -> (to: int)
    ensures
        0 <= to <= s.len(),
        trim_end(s, class) == s.take(to),
        to > 0 ==> !class.has(s[to - 1]),
    decreases s.len(),
{
    if s.len() > 0 && class.has(s.last()) {
        let to = lemma_trim_end_range(s.drop_last(), class);
        assert(s.drop_last().take(to) =~= s.take(to));
        to
    } else {
        assert(s.take(s.len() as int) =~= s);
        s.len() as int
    }
}

/// Trimmed text is a part of the text, with characters outside the class at its ends.
pub proof fn lemma_trim_range(s: Seq<char>, class: CharClass) -> (range: (int, int))
    ensures
        0 <= range.0 <= range.1 <= s.len(),
        trim_class(s, class) == s.subrange(range.0, range.1),
        range.0 < range.1 ==> !class.has(s[range.0]) && !class.has(s[range.1 - 1]),
{
    let from = lemma_trim_start_range(s, class);
    let t = s.skip(from);
    let to = lemma_trim_end_range(t, class);
    assert(t.take(to) =~= s.subrange(from, from + to));
    if to > 0 {
        assert(t[to - 1] == s[from + to - 1]);
    }
    (from, from + to)
}

/// Text made of characters of the class alone is trimmed to nothing.
pub proof fn lemma_trim_all(s: Seq<char>, class: CharClass)
    requires
        forall|i: int| 0 <= i < s.len() ==> class.has(#[trigger] s[i]),
    ensures
        trim_start(s, class) == Seq::<char>::empty(),
        trim_class(s, class) == Seq::<char>::empty(),
{
    lemma_trim_start_skip(s, class, s.len() as int);
    assert(s.skip(s.len() as int) =~= Seq::<char>::empty());
}

/// The position of the first character outside the class, or the length.
fn skip_class(v: &Vec<char>, class: CharClass) -> (n: usize)
    ensures
        n <= v@.len(),
        forall|i: int| 0 <= i < n ==> class.has(#[trigger] v@[i]),
        n < v@.len() ==> !class.has(v@[n as int]),
{
    let mut n: usize = 0;
    while n < v.len() && class.holds(v[n])
        invariant
            n <= v@.len(),
            forall|i: int| 0 <= i < n ==> class.has(#[trigger] v@[i]),
        decreases v.len() - n,
    {
        n += 1;
    }
    n
}

/// The text without its leading characters of the class.
pub fn trim_start_of(s: &str, class: CharClass) -> (r: String)
    ensures
        r@ == trim_start(s@, class),
{
    let v = chars_of(s);
    let n = skip_class(&v, class);
    proof {
        lemma_trim_start_skip(s@, class, n as int);
        assert(s@.skip(n as int) =~= s@.subrange(n as int, s@.len() as int));
    }
    string_of(&v, n, v.len())
}

/// The text without its leading and trailing characters of the class.
pub fn trim_class_of(s: &str, class: CharClass) -> (r: String)
    ensures
        r@ == trim_class(s@, class),
{
    let v = chars_of(s);
    let n = skip_class(&v, class);
    let mut m: usize = v.len();
    while n < m && class.holds(v[m - 1])
        invariant
            n <= m <= v@.len(),
            forall|i: int| m <= i < v@.len() ==> class.has(#[trigger] v@[i]),
        decreases m,
    {
        m -= 1;
    }
    proof {
        if n < m {
            lemma_trim_around(s@, class, n as int, m as int);
        } else {
            assert forall|i: int| 0 <= i < s@.len() implies class.has(#[trigger] s@[i]) by {}
            lemma_trim_all(s@, class);
            assert(s@.subrange(n as int, m as int) =~= Seq::<char>::empty());
        }
    }
    string_of(&v, n, m)
}

/// The text without white space at its ends.
pub fn trim(s: &str) -> (r: String)
    ensures
        r@ == trimmed(s@),
{
    trim_class_of(s, CharClass::White)
}

// ── Splitting and joining ─────────────────────────────────────────────────

/// A text has at least one piece.
pub proof fn lemma_split_some(s: Seq<char>, class: CharClass)
    ensures
        split_at_class(s, class).len() > 0,
    decreases s.len(),
{
    if s.len() > 0 {
        lemma_split_some(s.drop_last(), class);
    }
}

/// Text on both sides of a separator is split on each side by itself.
pub proof fn lemma_split_around(a: Seq<char>, c: char, b: Seq<char>, class: CharClass)
    requires
        class.has(c),
    ensures
        split_at_class(a.push(c) + b, class) == split_at_class(a, class) + split_at_class(b, class),
    decreases b.len(),
{
    let whole = a.push(c) + b;
    if b.len() == 0 {
        assert(whole =~= a.push(c));
        assert(whole.drop_last() =~= a);
        assert(split_at_class(whole, class) =~= split_at_class(a, class) + split_at_class(
            b,
            class,
        ));
    } else {
        lemma_split_around(a, c, b.drop_last(), class);
        lemma_split_some(b.drop_last(), class);
        assert(whole.drop_last() =~= a.push(c) + b.drop_last());
        assert(whole.last() == b.last());
        let left = split_at_class(a, class);
        let right = split_at_class(b.drop_last(), class);
        assert((left + right).last() == right.last());
        assert((left + right).drop_last() =~= left + right.drop_last());
        assert(split_at_class(whole, class) =~= left + split_at_class(b, class));
    }
}

/// Text without a separator is one piece.
pub proof fn lemma_split_one(s: Seq<char>, class: CharClass)
    requires
        forall|i: int| 0 <= i < s.len() ==> !class.has(#[trigger] s[i]),
    ensures
        split_at_class(s, class) == seq![s],
    decreases s.len(),
{
    if s.len() > 0 {
        let init = s.drop_last();
        assert forall|i: int| 0 <= i < init.len() implies !class.has(#[trigger] init[i]) by {
            assert(init[i] == s[i]);
        }
        lemma_split_one(init, class);
        assert(!class.has(s.last()));
        assert(init.push(s.last()) =~= s);
        assert(split_at_class(s, class) =~= seq![s]);
    } else {
        assert(s =~= Seq::<char>::empty());
    }
}

/// No piece holds a separator.
pub proof fn lemma_split_pieces(s: Seq<char>, class: CharClass, k: int, i: int)
    requires
        0 <= k < split_at_class(s, class).len(),
        0 <= i < split_at_class(s, class)[k].len(),
    ensures
        !class.has(split_at_class(s, class)[k][i]),
    decreases s.len(),
{
    if s.len() > 0 {
        lemma_split_some(s.drop_last(), class);
        let before = split_at_class(s.drop_last(), class);
        if class.has(s.last()) {
            lemma_split_pieces(s.drop_last(), class, k, i);
        } else if k < before.len() - 1 || i < before.last().len() {
            lemma_split_pieces(s.drop_last(), class, k, i);
        }
    }
}

/// Pieces joined by the separator that they were split at are the text again.
pub proof fn lemma_join_split(s: Seq<char>, c: char)
    ensures
        joined(split_at_class(s, CharClass::Is(c)), seq![c]) == s,
    decreases s.len(),
{
    let class = CharClass::Is(c);
    let pieces = split_at_class(s, class);
    if s.len() == 0 {
        assert(joined(pieces, seq![c]) =~= s);
    } else {
        let before = split_at_class(s.drop_last(), class);
        lemma_join_split(s.drop_last(), c);
        lemma_split_some(s.drop_last(), class);
        if class.has(s.last()) {
            assert(pieces.drop_last() =~= before);
        } else {
            assert(pieces.drop_last() =~= before.drop_last());
        }
        assert(joined(pieces, seq![c]) =~= s.drop_last().push(s.last()));
        assert(s.drop_last().push(s.last()) =~= s);
    }
}

/// Whether no line holds a line feed.
pub open spec fn are_lines(lines: Seq<Seq<char>>) -> bool {
    forall|k: int| 0 <= k < lines.len() ==> !(#[trigger] lines[k]).contains('\n')
}

/// Lines that were put one below the other are found again.
pub proof fn lemma_split_unlines(lines: Seq<Seq<char>>, rest: Seq<char>)
    requires
        are_lines(lines),
    ensures
        split_at_class(unlines(lines) + rest, CharClass::Is('\n')) == lines + split_at_class(
            rest,
            CharClass::Is('\n'),
        ),
    decreases lines.len(),
{
    let class = CharClass::Is('\n');
    if lines.len() == 0 {
        assert(unlines(lines) + rest =~= rest);
        assert(lines + split_at_class(rest, class) =~= split_at_class(rest, class));
    } else {
        let init = lines.drop_last();
        let last = lines.last();
        assert forall|k: int| 0 <= k < init.len() implies !(#[trigger] init[k]).contains('\n') by {
            assert(init[k] == lines[k]);
        }
        lemma_split_unlines(init, last.push('\n') + rest);
        assert(unlines(lines) + rest =~= unlines(init) + (last.push('\n') + rest));
        lemma_split_around(last, '\n', rest, class);
        assert(!lines[lines.len() - 1].contains('\n'));
        assert forall|i: int| 0 <= i < last.len() implies !class.has(#[trigger] last[i]) by {
            assert(last.contains(last[i]));
        }
        lemma_split_one(last, class);
        assert(init + (seq![last] + split_at_class(rest, class)) =~= lines + split_at_class(
            rest,
            class,
        ));
    }
}

/// Lines may be put one below the other in two parts.
pub proof fn lemma_unlines_concat(a: Seq<Seq<char>>, b: Seq<Seq<char>>)
    ensures
        unlines(a + b) == unlines(a) + unlines(b),
    decreases b.len(),
{
    if b.len() == 0 {
        assert(a + b =~= a);
        assert(unlines(a) + unlines(b) =~= unlines(a));
    } else {
        lemma_unlines_concat(a, b.drop_last());
        assert((a + b).drop_last() =~= a + b.drop_last());
        assert((a + b).last() == b.last());
        assert(unlines(a + b) =~= unlines(a) + unlines(b));
    }
}

/// Text that stands in a line stands in the lines put one below the other.
pub proof fn lemma_unlines_has(lines: Seq<Seq<char>>, k: int, pattern: Seq<char>)
    requires
        0 <= k < lines.len(),
        has_text(lines[k], pattern),
    ensures
        has_text(unlines(lines), pattern),
    decreases lines.len(),
{
    let init = lines.drop_last();
    let whole = unlines(lines);
    let m = pattern.len() as int;
    if k == lines.len() - 1 {
        let at = choose|at: int| occurs_at(lines[k], pattern, at);
        let n = unlines(init).len() as int;
        assert(whole.subrange(n + at, n + at + m) =~= lines[k].subrange(at, at + m));
        assert(occurs_at(whole, pattern, n + at));
    } else {
        lemma_unlines_has(init, k, pattern);
        let at = choose|at: int| occurs_at(unlines(init), pattern, at);
        assert(whole.subrange(at, at + m) =~= unlines(init).subrange(at, at + m));
        assert(occurs_at(whole, pattern, at));
    }
}

/// The pieces between the separators, empty ones too.
pub fn split(s: &str, class: CharClass) -> (r: Vec<String>)
    ensures
        views(r@) == split_at_class(s@, class),
{
    let v = chars_of(s);
    let mut out: Vec<String> = Vec::new();
    let mut piece = String::new();
    let mut i: usize = 0;
    proof {
        assert(s@.take(0) =~= Seq::<char>::empty());
        assert(views(out@).push(piece@) =~= split_at_class(s@.take(0), class));
    }
    while i < v.len()
        invariant
            v@ == s@,
            i <= v.len(),
            views(out@).push(piece@) == split_at_class(s@.take(i as int), class),
        decreases v.len() - i,
    {
        let ghost before = views(out@).push(piece@);
        let c = v[i];
        proof {
            assert(s@.take(i + 1).drop_last() =~= s@.take(i as int));
            assert(s@.take(i + 1).last() == c);
            assert(before.drop_last() =~= views(out@));
        }
        if class.holds(c) {
            out.push(piece);
            piece = String::new();
            proof {
                assert(views(out@) =~= before);
            }
        } else {
            piece.push(c);
        }
        i += 1;
    }
    proof {
        assert(s@.take(i as int) =~= s@);
    }
    let ghost before = views(out@).push(piece@);
    out.push(piece);
    proof {
        assert(views(out@) =~= before);
    }
    out
}

/// The pieces that are not empty.
pub fn keep_nonempty(pieces: &Vec<String>) -> (r: Vec<String>)
    ensures
        views(r@) == nonempty(views(pieces@)),
{
    let mut out: Vec<String> = Vec::new();
    let mut i: usize = 0;
    proof {
        assert(views(pieces@).take(0) =~= Seq::<Seq<char>>::empty());
        assert(views(out@) =~= nonempty(views(pieces@).take(0)));
    }
    while i < pieces.len()
        invariant
            i <= pieces.len(),
            views(out@) == nonempty(views(pieces@).take(i as int)),
        decreases pieces.len() - i,
    {
        let ghost before = views(out@);
        proof {
            assert(views(pieces@).take(i + 1).drop_last() =~= views(pieces@).take(i as int));
            assert(views(pieces@).take(i + 1).last() == pieces@[i as int]@);
        }
        if !pieces[i].as_str().is_empty() {
            out.push(pieces[i].clone());
            proof {
                assert(views(out@) =~= before.push(pieces@[i as int]@));
            }
        }
        i += 1;
    }
    proof {
        assert(views(pieces@).take(i as int) =~= views(pieces@));
    }
    out
}

/// The pieces, each without white space at its ends.
pub fn trim_each(pieces: &Vec<String>) -> (r: Vec<String>)
    ensures
        views(r@) == trimmed_each(views(pieces@)),
{
    let mut out: Vec<String> = Vec::new();
    let mut i: usize = 0;
    while i < pieces.len()
        invariant
            i <= pieces.len(),
            views(out@) == trimmed_each(views(pieces@)).take(i as int),
        decreases pieces.len() - i,
    {
        let ghost before = views(out@);
        out.push(trim(pieces[i].as_str()));
        proof {
            assert(views(out@) =~= before.push(trimmed(pieces@[i as int]@)));
            assert(views(out@) =~= trimmed_each(views(pieces@)).take(i + 1));
        }
        i += 1;
    }
    proof {
        assert(trimmed_each(views(pieces@)).take(i as int) =~= trimmed_each(views(pieces@)));
    }
    out
}

/// The maximal runs of characters that are not white space.
pub fn words_of(s: &str) -> (r: Vec<String>)
    ensures
        views(r@) == words(s@),
{
    keep_nonempty(&split(s, CharClass::White))
}

/// The pieces one after the other, with the separator between neighbours.
pub fn join(pieces: &Vec<String>, separator: &str) -> (r: String)
    ensures
        r@ == joined(views(pieces@), separator@),
{
    let mut out = String::new();
    let mut i: usize = 0;
    while i < pieces.len()
        invariant
            i <= pieces.len(),
            out@ == joined(views(pieces@).take(i as int), separator@),
        decreases pieces.len() - i,
    {
        proof {
            assert(views(pieces@).take(i + 1).drop_last() =~= views(pieces@).take(i as int));
            assert(views(pieces@).take(i + 1).last() == pieces@[i as int]@);
        }
        if i > 0 {
            out.push_str(separator);
        }
        out.push_str(pieces[i].as_str());
        i += 1;
    }
    proof {
        assert(views(pieces@).take(i as int) =~= views(pieces@));
    }
    out
}

/// Each line followed by a line feed.
pub fn unlines_of(lines: &Vec<String>) -> (r: String)
    ensures
        r@ == unlines(views(lines@)),
{
    let mut out = String::new();
    let mut i: usize = 0;
    while i < lines.len()
        invariant
            i <= lines.len(),
            out@ == unlines(views(lines@).take(i as int)),
        decreases lines.len() - i,
    {
        proof {
            assert(views(lines@).take(i + 1).drop_last() =~= views(lines@).take(i as int));
            assert(views(lines@).take(i + 1).last() == lines@[i as int]@);
        }
        let ghost before = out@;
        out.push_str(lines[i].as_str());
        out.push('\n');
        proof {
            assert(out@ =~= before + lines@[i as int]@.push('\n'));
        }
        i += 1;
    }
    proof {
        assert(views(lines@).take(i as int) =~= views(lines@));
    }
    out
}

// ── Searching ─────────────────────────────────────────────────────────────

/// There is one first position only.
pub proof fn lemma_first_index(s: Seq<char>, pattern: Seq<char>, at: int)
    requires
        first_at(s, pattern, at),
    ensures
        first_index(s, pattern) == at,
        has_text(s, pattern),
{
    let other = first_index(s, pattern);
    assert(first_at(s, pattern, other));
}

/// Where the pattern stands somewhere, there is a first position.
pub proof fn lemma_first_index_found(s: Seq<char>, pattern: Seq<char>)
    requires
        has_text(s, pattern),
    ensures
        first_at(s, pattern, first_index(s, pattern)),
{
    let at = choose|at: int| occurs_at(s, pattern, at);
    lemma_first_exists(s, pattern, at);
}

proof fn lemma_first_exists(s: Seq<char>, pattern: Seq<char>, at: int)
    requires
        occurs_at(s, pattern, at),
    ensures
        exists|i: int| first_at(s, pattern, i),
    decreases at,
{
    if exists|i: int| 0 <= i < at && occurs_at(s, pattern, i) {
        let i = choose|i: int| 0 <= i < at && occurs_at(s, pattern, i);
        lemma_first_exists(s, pattern, i);
    } else {
        assert(first_at(s, pattern, at));
    }
}

/// The text of the lines begins with the first line.
pub proof fn lemma_unlines_first(lines: Seq<Seq<char>>)
    requires
        lines.len() > 0,
    ensures
        unlines(lines).len() > lines[0].len(),
        forall|i: int| 0 <= i < lines[0].len() ==> #[trigger] unlines(lines)[i] == lines[0][i],
    decreases lines.len(),
{
    if lines.len() == 1 {
        assert(unlines(lines.drop_last()) =~= Seq::<char>::empty());
        assert(unlines(lines) =~= lines[0].push('\n'));
    } else {
        lemma_unlines_first(lines.drop_last());
    }
}

/// No text comes before itself; of two different texts one comes before the other.
pub proof fn lemma_less_total(a: Seq<char>, b: Seq<char>)
    ensures
        !text_less(a, a),
        a == b || text_less(a, b) || text_less(b, a),
{
    if a != b {
        assert(a.take(0) =~= b.take(0));
        lemma_differ(a, b, 0);
    }
}

proof fn lemma_differ(a: Seq<char>, b: Seq<char>, n: int)
    requires
        0 <= n <= a.len(),
        n <= b.len(),
        a.take(n) == b.take(n),
        a != b,
    ensures
        text_less(a, b) || text_less(b, a),
    decreases a.len() - n,
{
    if n == a.len() || n == b.len() {
        if n == a.len() && n == b.len() {
            assert(a.take(n) =~= a);
            assert(b.take(n) =~= b);
        } else if n == a.len() {
            assert(less_at(a, b, n));
        } else {
            assert(less_at(b, a, n));
        }
    } else if a[n] == b[n] {
        assert(a.take(n + 1) =~= a.take(n).push(a[n]));
        assert(b.take(n + 1) =~= b.take(n).push(b[n]));
        lemma_differ(a, b, n + 1);
    } else if a[n] < b[n] {
        assert(less_at(a, b, n));
    } else {
        assert(less_at(b, a, n));
    }
}

/// The order of texts is transitive.
pub proof fn lemma_less_trans(a: Seq<char>, b: Seq<char>, c: Seq<char>)
    requires
        text_less(a, b),
        text_less(b, c),
    ensures
        text_less(a, c),
{
    let i = choose|i: int| less_at(a, b, i);
    let j = choose|j: int| less_at(b, c, j);
    let k = if i < j {
        i
    } else {
        j
    };
    assert(a.take(k) =~= a.take(i).take(k));
    assert(b.take(k) =~= b.take(i).take(k));
    assert(b.take(k) =~= b.take(j).take(k));
    assert(c.take(k) =~= c.take(j).take(k));
    if i < j {
        assert(b.take(j)[i] == c.take(j)[i]);
    } else if j < i {
        assert(a.take(i)[j] == b.take(i)[j]);
    }
    assert(less_at(a, c, k));
}

/// The order of texts is kept behind a common beginning.
pub proof fn lemma_less_behind(p: Seq<char>, a: Seq<char>, b: Seq<char>)
    requires
        text_less(a, b),
    ensures
        text_less(p + a, p + b),
{
    let i = choose|i: int| less_at(a, b, i);
    let n = p.len() + i;
    assert((p + a).take(n) =~= p + a.take(i));
    assert((p + b).take(n) =~= p + b.take(i));
    assert(less_at(p + a, p + b, n));
}

/// Whether the first text comes before the second.
pub fn less(a: &str, b: &str) -> (r: bool)
    ensures
        r == text_less(a@, b@),
{
    let v = chars_of(a);
    let w = chars_of(b);
    let mut i: usize = 0;
    while i < v.len() && i < w.len() && v[i] == w[i]
        invariant
            v@ == a@,
            w@ == b@,
            i <= v@.len(),
            i <= w@.len(),
            forall|j: int| 0 <= j < i ==> a@[j] == b@[j],
        decreases v.len() - i,
    {
        i += 1;
    }
    proof {
        assert(a@.take(i as int) =~= b@.take(i as int));
    }
    if i < w.len() && (i == v.len() || v[i] < w[i]) {
        proof {
            assert(less_at(a@, b@, i as int));
        }
        true
    } else {
        proof {
            if text_less(a@, b@) {
                let k = choose|k: int| less_at(a@, b@, k);
                if k < i {
                    assert(a@[k] == b@[k]);
                } else if k > i {
                    assert(a@.take(k)[i as int] == b@.take(k)[i as int]);
                }
            }
        }
        false
    }
}

/// Whether the pattern stands in the characters at that position.
pub fn matches_at(v: &Vec<char>, p: &Vec<char>, at: usize) -> (r: bool)
    requires
        at <= v@.len(),
    ensures
        r == occurs_at(v@, p@, at as int),
{
    if p.len() > v.len() - at {
        return false;
    }
    let mut i: usize = 0;
    while i < p.len()
        invariant
            i <= p@.len(),
            at + p.len() <= v.len(),
            forall|j: int| 0 <= j < i ==> v@[at + j] == p@[j],
        decreases p.len() - i,
    {
        if v[at + i] != p[i] {
            proof {
                assert(v@.subrange(at as int, at + p@.len())[i as int] != p@[i as int]);
            }
            return false;
        }
        i += 1;
    }
    proof {
        assert(v@.subrange(at as int, at + p@.len()) =~= p@);
    }
    true
}

/// The first position at which the pattern stands in the characters.
fn find_in(v: &Vec<char>, p: &Vec<char>) -> (r: Option<usize>)
    ensures
        match r {
            Some(at) => first_at(v@, p@, at as int),
            None => !has_text(v@, p@),
        },
{
    let mut i: usize = 0;
    loop
        invariant
            i <= v@.len(),
            forall|j: int| 0 <= j < i ==> !occurs_at(v@, p@, j),
        decreases v.len() - i,
    {
        if matches_at(v, p, i) {
            return Some(i);
        }
        if i == v.len() {
            return None;
        }
        i += 1;
    }
}

/// Whether the pattern stands anywhere in the text.
pub fn contains(s: &str, pattern: &str) -> (r: bool)
    ensures
        r == has_text(s@, pattern@),
{
    find_in(&chars_of(s), &chars_of(pattern)).is_some()
}

/// The text before the first place where the pattern stands, if it stands anywhere.
pub fn before_first(s: &str, pattern: &str) -> (r: Option<String>)
    ensures
        match r {
            Some(t) => first_at(s@, pattern@, t@.len() as int) && t@ == s@.take(t@.len() as int),
            None => !has_text(s@, pattern@),
        },
{
    let v = chars_of(s);
    match find_in(&v, &chars_of(pattern)) {
        Some(at) => {
            proof {
                assert(s@.subrange(0, at as int) =~= s@.take(at as int));
            }
            Some(string_of(&v, 0, at))
        },
        None => None,
    }
}

/// Whether the text begins with the pattern.
pub fn starts_with(s: &str, pattern: &str) -> (r: bool)
    ensures
        r == begins(s@, pattern@),
{
    matches_at(&chars_of(s), &chars_of(pattern), 0)
}

/// Whether the text ends with the pattern.
pub fn ends_with(s: &str, pattern: &str) -> (r: bool)
    ensures
        r == ends(s@, pattern@),
{
    let v = chars_of(s);
    let p = chars_of(pattern);
    if p.len() > v.len() {
        return false;
    }
    matches_at(&v, &p, v.len() - p.len())
}

/// What follows the pattern, where the text begins with it.
pub fn strip_prefix(s: &str, pattern: &str) -> (r: Option<String>)
    ensures
        match r {
            Some(t) => begins(s@, pattern@) && t@ == s@.skip(pattern@.len() as int),
            None => !begins(s@, pattern@),
        },
{
    let v = chars_of(s);
    let p = chars_of(pattern);
    if matches_at(&v, &p, 0) {
        proof {
            assert(s@.subrange(p@.len() as int, s@.len() as int) =~= s@.skip(p@.len() as int));
        }
        Some(string_of(&v, p.len(), v.len()))
    } else {
        None
    }
}

/// Whether the text holds a character of the class.
pub fn has_char(s: &str, class: CharClass) -> (r: bool)
    ensures
        r == (exists|i: int| 0 <= i < s@.len() && class.has(#[trigger] s@[i])),
{
    let v = chars_of(s);
    let mut i: usize = 0;
    while i < v.len()
        invariant
            v@ == s@,
            i <= v@.len(),
            forall|j: int| 0 <= j < i ==> !class.has(#[trigger] s@[j]),
        decreases v.len() - i,
    {
        if class.holds(v[i]) {
            proof {
                assert(class.has(s@[i as int]));
            }
            return true;
        }
        i += 1;
    }
    false
}

/// The character with `A` to `Z` made lower case.
pub fn lower_char(c: char) -> (r: char)
    ensures
        r == ascii_lower_char(c),
{
    if 'A' <= c && c <= 'Z' {
        let code: u8 = c as u8 + 32u8;
        code as char
    } else {
        c
    }
}

/// The text with `A` to `Z` made lower case.
pub fn to_ascii_lower(s: &str) -> (r: String)
    ensures
        r@ == ascii_lower(s@),
{
    let v = chars_of(s);
    let mut out = String::new();
    let mut i: usize = 0;
    while i < v.len()
        invariant
            i <= v@.len(),
            v@ == s@,
            out@ == ascii_lower(s@).take(i as int),
        decreases v.len() - i,
    {
        out.push(lower_char(v[i]));
        proof {
            assert(out@ =~= ascii_lower(s@).take(i + 1));
        }
        i += 1;
    }
    proof {
        assert(ascii_lower(s@).take(i as int) =~= ascii_lower(s@));
    }
    out
}

// ── UTF-8 ─────────────────────────────────────────────────────────────────

/// The number of bytes of the text in UTF-8.
pub open spec fn bytes_of(s: Seq<char>) -> nat {
    vstd::utf8::encode_utf8(s).len()
}

/// The number of bytes of the text in UTF-8.
pub fn byte_len(s: &str) -> (n: usize)
    ensures
        n == bytes_of(s@),
{
    s.as_bytes().len()
}

/// The number of bytes of a character in UTF-8.
pub fn char_bytes(c: char) -> (n: usize)
    ensures
        n == vstd::utf8::encode_scalar(c as u32).len(),
        1 <= n <= 4,
{
    let code: u32 = c as u32;
    if code < 0x80 {
        1
    } else if code < 0x800 {
        2
    } else if code < 0x10000 {
        3
    } else {
        4
    }
}

/// A character more is its bytes more.
pub proof fn lemma_bytes_push(s: Seq<char>, c: char)
    ensures
        bytes_of(s.push(c)) == bytes_of(s) + vstd::utf8::encode_scalar(c as u32).len(),
        1 <= vstd::utf8::encode_scalar(c as u32).len() <= 4,
    decreases s.len(),
{
    if s.len() == 0 {
        assert(s.push(c).drop_first() =~= Seq::<char>::empty());
        assert(vstd::utf8::encode_utf8(Seq::<char>::empty()).len() == 0);
    } else {
        lemma_bytes_push(s.drop_first(), c);
        assert(s.push(c).drop_first() =~= s.drop_first().push(c));
        assert(s.push(c)[0] == s[0]);
    }
}

/// The more characters, the more bytes.
pub proof fn lemma_bytes_grow(s: Seq<char>, i: int, j: int)
    requires
        0 <= i <= j <= s.len(),
    ensures
        bytes_of(s.take(i)) + (j - i) <= bytes_of(s.take(j)),
    decreases j - i,
{
    if i < j {
        lemma_bytes_grow(s, i, j - 1);
        assert(s.take(j) =~= s.take(j - 1).push(s[j - 1]));
        lemma_bytes_push(s.take(j - 1), s[j - 1]);
    }
}

/// The text that bytes are read as, whatever they are.
pub uninterp spec fn utf8_lossy(bytes: Seq<u8>) -> Seq<char>;

/// `String::from_utf8_lossy`: the text is a function of the bytes, and is named
/// [`utf8_lossy`]. Bytes that are UTF-8 are read as the text that they stand for.
#[verifier::external_body]
fn from_utf8_lossy(bytes: &[u8]) -> (r: String)
    ensures
        r@ == utf8_lossy(bytes@),
        vstd::utf8::valid_utf8(bytes@) ==> r@ == vstd::utf8::decode_utf8(bytes@),
{
    String::from_utf8_lossy(bytes).into_owned()
}

/// The text that bytes are read as: what they stand for in UTF-8, with a mark in place of what
/// is not UTF-8.
pub fn text_of(bytes: &[u8]) -> (r: String)
    ensures
        r@ == utf8_lossy(bytes@),
        vstd::utf8::valid_utf8(bytes@) ==> r@ == vstd::utf8::decode_utf8(bytes@),
{
    from_utf8_lossy(bytes)
}

// ── Laws ──────────────────────────────────────────────────────────────────

/// White space is what Unicode says it is, code point by code point.
pub proof fn law_white_space(c: char)
    ensures
        is_white(c) <==> {
            let n = c as u32;
            ||| 9 <= n <= 13
            ||| n == 32
            ||| n == 0x85
            ||| n == 0xA0
            ||| n == 0x1680
            ||| 0x2000 <= n <= 0x200A
            ||| n == 0x2028
            ||| n == 0x2029
            ||| n == 0x202F
            ||| n == 0x205F
            ||| n == 0x3000
        },
        CharClass::White.has(c) <==> is_white(c),
        CharClass::Is(c).has(c),
        forall|d: char| #[trigger] CharClass::Is(c).has(d) ==> d == c,
        CharClass::LineBreak.has(c) <==> c as u32 == 10 || c as u32 == 13,
        CharClass::Assign.has(c) <==> c as u32 == 58 || c as u32 == 32 || c as u32 == 61 || c
            as u32 == 34,
{
}

/// To trim takes all white space from both ends and nothing else.
pub proof fn law_trim(front: Seq<char>, inner: Seq<char>, back: Seq<char>)
    requires
        forall|i: int| 0 <= i < front.len() ==> is_white(#[trigger] front[i]),
        forall|i: int| 0 <= i < back.len() ==> is_white(#[trigger] back[i]),
        inner.len() > 0 ==> !is_white(inner[0]) && !is_white(inner.last()),
    ensures
        trimmed(front + inner + back) == inner,
{
    let s = front + inner + back;
    let n = front.len() as int;
    let m = n + inner.len();
    if inner.len() > 0 {
        assert(s[n] == inner[0]);
        assert(s[m - 1] == inner.last());
        assert forall|i: int| 0 <= i < n implies CharClass::White.has(#[trigger] s[i]) by {
            assert(s[i] == front[i]);
        }
        assert forall|i: int| m <= i < s.len() implies CharClass::White.has(#[trigger] s[i]) by {
            assert(s[i] == back[i - m]);
        }
        lemma_trim_around(s, CharClass::White, n, m);
        assert(s.subrange(n, m) =~= inner);
    } else {
        assert forall|i: int| 0 <= i < s.len() implies CharClass::White.has(#[trigger] s[i]) by {
            if i < n {
                assert(s[i] == front[i]);
            } else {
                assert(s[i] == back[i - n]);
            }
        }
        lemma_trim_all(s, CharClass::White);
        assert(inner =~= Seq::<char>::empty());
    }
}

/// A letter from `A` to `Z` becomes the small letter of the same place in the alphabet, and every
/// other character stays.
pub proof fn law_lower_case(c: char)
    ensures
        65 <= c as u32 <= 90 ==> ascii_lower_char(c) as u32 == c as u32 + 32,
        !(65 <= c as u32 <= 90) ==> ascii_lower_char(c) == c,
{
}

/// A pattern is found wherever it stands, and only where the text is something, the pattern, and
/// something more.
pub proof fn law_search(before: Seq<char>, pattern: Seq<char>, behind: Seq<char>, s: Seq<char>)
    ensures
        has_text(before + pattern + behind, pattern),
        begins(pattern + behind, pattern),
        ends(before + pattern, pattern),
        has_text(s, pattern) ==> exists|a: Seq<char>, b: Seq<char>|
            s == #[trigger] (a + pattern + b),
        begins(s, pattern) ==> s == pattern + s.skip(pattern.len() as int),
        ends(s, pattern) ==> s == s.take(s.len() - pattern.len()) + pattern,
{
    let n = before.len() as int;
    let m = pattern.len() as int;
    let whole = before + pattern + behind;
    assert(whole.subrange(n, n + m) =~= pattern);
    assert(occurs_at(whole, pattern, n));
    assert((pattern + behind).subrange(0, m) =~= pattern);
    assert((before + pattern).subrange(n, n + m) =~= pattern);
    if has_text(s, pattern) {
        let at = choose|at: int| occurs_at(s, pattern, at);
        assert(s =~= s.take(at) + pattern + s.skip(at + m)) by {
            assert(s =~= s.take(at) + s.subrange(at, at + m) + s.skip(at + m));
        }
    }
    if begins(s, pattern) {
        assert(s =~= s.subrange(0, m) + s.skip(m));
    }
    if ends(s, pattern) {
        let k = s.len() - m;
        assert(s =~= s.take(k) + s.subrange(k, k + m));
    }
}

/// Texts are ordered by the first character in which they differ, and a text comes before every
/// longer one that it begins.
pub proof fn law_text_order(p: Seq<char>, x: char, a: Seq<char>, y: char, b: Seq<char>)
    ensures
        x < y ==> text_less(p.push(x) + a, p.push(y) + b) && !text_less(p.push(y) + b, p.push(x) + a),
        text_less(p, p.push(x) + a),
        !text_less(p.push(x) + a, p),
{
    let u = p.push(x) + a;
    let v = p.push(y) + b;
    let n = p.len() as int;
    assert(u.take(n) =~= p);
    assert(v.take(n) =~= p);
    if x < y {
        assert(less_at(u, v, n));
        if text_less(v, u) {
            lemma_less_trans(u, v, u);
            lemma_less_total(u, u);
        }
    }
    assert(p.take(n) =~= p);
    assert(less_at(p, u, n));
    if text_less(u, p) {
        lemma_less_trans(p, u, p);
        lemma_less_total(p, p);
    }
}

/// What is left of a list when its empty pieces are taken out: the others, in their order.
pub proof fn law_nonempty(a: Seq<Seq<char>>, piece: Seq<char>, b: Seq<Seq<char>>)
    ensures
        nonempty(a + b) == nonempty(a) + nonempty(b),
        piece.len() > 0 ==> nonempty(seq![piece]) == seq![piece],
        piece.len() == 0 ==> nonempty(seq![piece]) == Seq::<Seq<char>>::empty(),
    decreases b.len(),
{
    let none = Seq::<Seq<char>>::empty();
    assert(seq![piece].drop_last() =~= none);
    assert(seq![piece].last() == piece);
    assert(nonempty(none) =~= none);
    assert(none.push(piece) =~= seq![piece]);
    if b.len() == 0 {
        assert(a + b =~= a);
        assert(nonempty(a) + nonempty(b) =~= nonempty(a));
    } else {
        law_nonempty(a, piece, b.drop_last());
        assert((a + b).drop_last() =~= a + b.drop_last());
        assert((a + b).last() == b.last());
        assert(nonempty(a + b) =~= nonempty(a) + nonempty(b));
    }
}

/// Text is cut at every separator and nowhere else: on both sides of a separator by itself, and
/// not at all where there is none.
pub proof fn law_split(a: Seq<char>, c: char, b: Seq<char>)
    ensures
        split_at_class(a.push(c) + b, CharClass::Is(c)) == split_at_class(a, CharClass::Is(c))
            + split_at_class(b, CharClass::Is(c)),
        !a.contains(c) ==> split_at_class(a, CharClass::Is(c)) == seq![a],
{
    let class = CharClass::Is(c);
    lemma_split_around(a, c, b, class);
    if !a.contains(c) {
        assert forall|i: int| 0 <= i < a.len() implies !class.has(#[trigger] a[i]) by {
            assert(a.contains(a[i]));
        }
        lemma_split_one(a, class);
    }
}

/// Whether the lines stand in the text, whole and one below the other.
pub open spec fn has_lines(s: Seq<char>, lines: Seq<Seq<char>>) -> bool {
    has_text(seq!['\n'] + s, seq!['\n'] + unlines(lines))
}

/// Lines that follow each other in a list stand one below the other in the text of the list.
pub proof fn lemma_has_lines(lines: Seq<Seq<char>>, from: int, to: int)
    requires
        0 <= from <= to <= lines.len(),
    ensures
        has_lines(unlines(lines), lines.subrange(from, to)),
{
    let a = lines.take(from);
    let b = lines.subrange(from, to);
    let c = lines.skip(to);
    lemma_unlines_concat(a, b);
    lemma_unlines_concat(a + b, c);
    assert(a + b + c =~= lines);
    let whole = seq!['\n'] + unlines(lines);
    let part = seq!['\n'] + unlines(b);
    let n = unlines(a).len() as int;
    if n > 0 {
        assert(unlines(a).last() == '\n');
        assert(whole[n] == unlines(a)[n - 1]);
    }
    assert(whole.subrange(n, n + part.len()) =~= part) by {
        assert forall|i: int| 0 <= i < part.len() implies whole[n + i] == part[i] by {
            if i > 0 {
                assert(part[i] == unlines(b)[i - 1]);
                assert(whole[n + i] == unlines(lines)[n + i - 1]);
            }
        }
    }
    assert(occurs_at(whole, part, n));
}

/// Lines stand in the text one below the other: each is preceded by the beginning of the text or
/// by a line feed, and followed by a line feed.
pub proof fn law_lines_stand(before: Seq<Seq<char>>, line: Seq<char>, behind: Seq<Seq<char>>)
    ensures
        unlines(before.push(line) + behind) == unlines(before) + line + seq!['\n'] + unlines(behind),
        has_lines(unlines(before.push(line) + behind), seq![line]),
{
    lemma_unlines_concat(before.push(line), behind);
    assert(before.push(line).drop_last() =~= before);
    assert(unlines(before) + line.push('\n') + unlines(behind) =~= unlines(before) + line
        + seq!['\n'] + unlines(behind));
    let all = before.push(line) + behind;
    let k = before.len() as int;
    lemma_has_lines(all, k, k + 1);
    assert(all.subrange(k, k + 1) =~= seq![line]);
}

/// To trim by any class takes what is of the class from both ends, and nothing else.
pub proof fn law_trim_class(
    front: Seq<char>,
    inner: Seq<char>,
    back: Seq<char>,
    class: CharClass,
)
    requires
        forall|i: int| 0 <= i < front.len() ==> class.has(#[trigger] front[i]),
        forall|i: int| 0 <= i < back.len() ==> class.has(#[trigger] back[i]),
        inner.len() > 0,
        !class.has(inner[0]),
        !class.has(inner.last()),
    ensures
        trim_class(front + inner + back, class) == inner,
        trim_start(front + inner + back, class) == inner + back,
        trim_class(front + back, class) == Seq::<char>::empty(),
{
    let s = front + inner + back;
    let n = front.len() as int;
    let m = n + inner.len();
    assert(s[n] == inner[0]);
    assert(s[m - 1] == inner.last());
    assert forall|i: int| 0 <= i < n implies class.has(#[trigger] s[i]) by {
        assert(s[i] == front[i]);
    }
    assert forall|i: int| m <= i < s.len() implies class.has(#[trigger] s[i]) by {
        assert(s[i] == back[i - m]);
    }
    lemma_trim_around(s, class, n, m);
    assert(s.subrange(n, m) =~= inner);
    assert(s.skip(n) =~= inner + back);
    let ends = front + back;
    assert forall|i: int| 0 <= i < ends.len() implies class.has(#[trigger] ends[i]) by {
        if i < n {
            assert(ends[i] == front[i]);
        } else {
            assert(ends[i] == back[i - n]);
        }
    }
    lemma_trim_all(ends, class);
}

/// The words of a text are those before white space and those behind it, in their order; text
/// without white space is one word, or none where it is empty.
pub proof fn law_words(a: Seq<char>, c: char, b: Seq<char>)
    requires
        is_white(c),
    ensures
        words(a + seq![c] + b) == words(a) + words(b),
        (forall|i: int| 0 <= i < a.len() ==> !is_white(#[trigger] a[i])) && a.len() > 0 ==> words(a)
            == seq![a],
        words(Seq::empty()) == Seq::<Seq<char>>::empty(),
{
    let class = CharClass::White;
    let none = Seq::<char>::empty();
    lemma_split_around(a, c, b, class);
    assert(a.push(c) + b =~= a + seq![c] + b);
    law_nonempty(split_at_class(a, class), none, split_at_class(b, class));
    if forall|i: int| 0 <= i < a.len() ==> !is_white(#[trigger] a[i]) {
        lemma_split_one(a, class);
        law_nonempty(Seq::empty(), a, Seq::empty());
    }
    lemma_split_one(none, class);
}

/// Pieces are joined with the separator between each two of them, and nowhere else.
pub proof fn law_joined(pieces: Seq<Seq<char>>, piece: Seq<char>, separator: Seq<char>)
    ensures
        joined(Seq::empty(), separator) == Seq::<char>::empty(),
        joined(seq![piece], separator) == piece,
        pieces.len() > 0 ==> joined(pieces.push(piece), separator) == joined(pieces, separator)
            + separator + piece,
{
    assert(pieces.push(piece).drop_last() =~= pieces);
    assert(pieces.push(piece).last() == piece);
}

/// The first occurrence of a pattern is one, and none stands before it.
pub proof fn law_first_index(s: Seq<char>, pattern: Seq<char>, at: int)
    requires
        0 <= at,
        at + pattern.len() <= s.len(),
        s.subrange(at, at + pattern.len()) == pattern,
    ensures
        0 <= first_index(s, pattern) <= at,
        s.subrange(first_index(s, pattern), first_index(s, pattern) + pattern.len()) == pattern,
        forall|i: int|
            0 <= i < first_index(s, pattern) ==> #[trigger] s.subrange(i, i + pattern.len())
                != pattern,
{
    assert(occurs_at(s, pattern, at));
    lemma_first_index_found(s, pattern);
    let first = first_index(s, pattern);
    if at < first {
        assert(!occurs_at(s, pattern, at));
    }
    assert forall|i: int| 0 <= i < first implies #[trigger] s.subrange(i, i + pattern.len())
        != pattern by {
        assert(!occurs_at(s, pattern, i));
    }
}

/// A pattern stands in the text that it was put into.
pub proof fn lemma_stands(before: Seq<char>, pattern: Seq<char>, behind: Seq<char>)
    ensures
        has_text(before + pattern + behind, pattern),
        begins(pattern + behind, pattern),
        ends(before + pattern, pattern),
{
    law_search(before, pattern, behind, before);
}

/// What stands in a text stands in any text that goes on before it and behind it.
pub proof fn lemma_still_stands(a: Seq<char>, s: Seq<char>, b: Seq<char>, pattern: Seq<char>)
    requires
        has_text(s, pattern),
    ensures
        has_text(a + s, pattern),
        has_text(s + b, pattern),
        has_text(a + s + b, pattern),
{
    let at = choose|at: int| occurs_at(s, pattern, at);
    let n = a.len() as int;
    let m = pattern.len() as int;
    assert((a + s).subrange(n + at, n + at + m) =~= s.subrange(at, at + m));
    assert(occurs_at(a + s, pattern, n + at));
    assert((s + b).subrange(at, at + m) =~= s.subrange(at, at + m));
    assert(occurs_at(s + b, pattern, at));
    assert((a + s + b).subrange(n + at, n + at + m) =~= s.subrange(at, at + m));
    assert(occurs_at(a + s + b, pattern, n + at));
}

/// A value stands behind its key where it was written behind text that ends with the key.
pub proof fn lemma_field_stands(front: Seq<char>, lead: Seq<char>, key: Seq<char>, value: Seq<char>)
    requires
        ends(lead, key),
    ensures
        has_text(front + lead + value, key + value),
{
    let all = front + lead + value;
    let at = front.len() + lead.len() - key.len();
    let n = lead.len() as int;
    let k = key.len() as int;
    assert forall|i: int| 0 <= i < k + value.len() implies #[trigger] all[at + i] == (key + value)[i] by {
        if i < k {
            assert(lead.subrange(n - k, n)[i] == key[i]);
        }
    }
    assert(all.subrange(at, at + k + value.len()) =~= key + value);
    assert(occurs_at(all, key + value, at));
}

/// A list of strings stands for their texts, one by one, and a string that is there for its text.
pub proof fn law_views(list: Seq<String>, i: int, s: String, t: &str)
    requires
        0 <= i < list.len(),
    ensures
        views(list).len() == list.len(),
        views(list)[i] == list[i]@,
        opt_view(Some(s)) == Some(s@),
        opt_view(None).is_none(),
        opt_str_view(Some(t)) == Some(t@),
        opt_str_view(None).is_none(),
        opt_views(None).is_none(),
{
}

} // verus!
