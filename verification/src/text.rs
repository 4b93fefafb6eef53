//! Text as sequences of characters: the small vocabulary the parsers of
//! this crate are written in.

use vstd::prelude::*;

verus! {

/// The characters of `s`.
pub fn chars_of(s: &str) -> (v: Vec<char>)
    ensures
        v@ == s@,
{
    let mut v: Vec<char> = Vec::new();
    for c in it: s.chars()
        invariant
            it.seq() == s@,
            v@ == s@.take(it.index()),
    {
        v.push(c);
    }
    v
}

/// The string that `chars` spell.
pub fn string_of(chars: &Vec<char>) -> (s: String)
    ensures
        s@ == chars@,
{
    let mut s = String::new();
    let mut i: usize = 0;
    while i < chars.len()
        invariant
            i <= chars@.len(),
            s@ == chars@.take(i as int),
        decreases chars@.len() - i,
    {
        s.push(chars[i]);
        i += 1;
    }
    s
}

/// The views of a list of texts.
pub open spec fn views(texts: Seq<Vec<char>>) -> Seq<Seq<char>> {
    Seq::new(texts.len(), |i: int| texts[i]@)
}

/// The views of a list of strings.
pub open spec fn string_views(texts: Seq<String>) -> Seq<Seq<char>> {
    Seq::new(texts.len(), |i: int| texts[i]@)
}

/// `s` reads `p` at position `at`.
pub open spec fn reads_at(s: Seq<char>, at: int, p: Seq<char>) -> bool {
    0 <= at && at + p.len() <= s.len() && s.subrange(at, at + p.len()) == p
}

/// Whether `s` reads `p` at position `at`.
pub fn matches_at(s: &Vec<char>, at: usize, p: &Vec<char>) -> (r: bool)
    ensures
        r == reads_at(s@, at as int, p@),
{
    if at > s.len() || p.len() > s.len() - at {
        return false;
    }
    let mut k: usize = 0;
    while k < p.len()
        invariant
            at + p@.len() <= s@.len() <= usize::MAX,
            k <= p@.len(),
            forall|j: int| 0 <= j < k ==> s@[at + j] == p@[j],
        decreases p@.len() - k,
    {
        if s[at + k] != p[k] {
            assert(s@.subrange(at as int, at + p@.len())[k as int] != p@[k as int]);
            return false;
        }
        k += 1;
    }
    assert(s@.subrange(at as int, at + p@.len()) =~= p@);
    true
}

/// Whether `s` begins with `p`.
pub fn starts_with(s: &Vec<char>, p: &Vec<char>) -> (r: bool)
    ensures
        r == reads_at(s@, 0, p@),
{
    matches_at(s, 0, p)
}

/// `s` ends with `p`.
pub open spec fn ends_in(s: Seq<char>, p: Seq<char>) -> bool {
    reads_at(s, s.len() - p.len(), p)
}

/// Whether `s` ends with `p`.
pub fn ends_with(s: &Vec<char>, p: &Vec<char>) -> (r: bool)
    ensures
        r == ends_in(s@, p@),
{
    if p.len() > s.len() {
        return false;
    }
    matches_at(s, s.len() - p.len(), p)
}

/// The part of `s` from `from` up to `to`.
pub fn slice(s: &Vec<char>, from: usize, to: usize) -> (r: Vec<char>)
    requires
        from <= to <= s@.len(),
    ensures
        r@ == s@.subrange(from as int, to as int),
{
    let mut r: Vec<char> = Vec::new();
    let mut i: usize = from;
    while i < to
        invariant
            from <= i <= to <= s@.len(),
            r@ == s@.subrange(from as int, i as int),
        decreases to - i,
    {
        r.push(s[i]);
        assert(r@ =~= s@.subrange(from as int, i + 1));
        i += 1;
    }
    r
}

/// Index of the first `c` in `s` at or after `from`; the length of `s` if
/// there is none.
pub open spec fn index_from(s: Seq<char>, c: char, from: int) -> int
    decreases s.len() - from,
{
    if from < 0 || from >= s.len() {
        s.len() as int
    } else if s[from] == c {
        from
    } else {
        index_from(s, c, from + 1)
    }
}

/// `index_from` finds the first occurrence, if there is one.
pub proof fn lemma_index_from(s: Seq<char>, c: char, from: int)
    requires
        0 <= from <= s.len(),
    ensures
        from <= index_from(s, c, from) <= s.len(),
        index_from(s, c, from) < s.len() ==> s[index_from(s, c, from)] == c,
        forall|k: int| from <= k < index_from(s, c, from) ==> s[k] != c,
    decreases s.len() - from,
{
    if from < s.len() && s[from] != c {
        lemma_index_from(s, c, from + 1);
    }
}

/// The index of the first `c` in `s` at or after `from`, or the length of
/// `s`.
pub fn find_from(s: &Vec<char>, c: char, from: usize) -> (r: usize)
    requires
        from <= s@.len(),
    ensures
        r == index_from(s@, c, from as int),
        from <= r <= s@.len(),
{
    let mut i: usize = from;
    while i < s.len() && s[i] != c
        invariant
            from <= i <= s@.len(),
            index_from(s@, c, from as int) == index_from(s@, c, i as int),
        decreases s@.len() - i,
    {
        i += 1;
    }
    i
}

/// Index of the last `c` among the first `upto` characters of `s`; `-1` if
/// there is none.
pub open spec fn last_index_before(s: Seq<char>, c: char, upto: int) -> int
    decreases upto,
{
    if upto <= 0 || upto > s.len() {
        -1
    } else if s[upto - 1] == c {
        upto - 1
    } else {
        last_index_before(s, c, upto - 1)
    }
}

/// `last_index_before` finds the last occurrence, if there is one.
pub proof fn lemma_last_index_before(s: Seq<char>, c: char, upto: int)
    requires
        0 <= upto <= s.len(),
    ensures
        -1 <= last_index_before(s, c, upto) < upto,
        last_index_before(s, c, upto) >= 0 ==> s[last_index_before(s, c, upto)] == c,
        forall|k: int| last_index_before(s, c, upto) < k < upto ==> s[k] != c,
    decreases upto,
{
    if upto > 0 && s[upto - 1] != c {
        lemma_last_index_before(s, c, upto - 1);
    }
}

/// The index of the last `c` in `s`, if there is one.
pub fn rfind(s: &Vec<char>, c: char) -> (r: Option<usize>)
    ensures
        match r {
            Some(i) => i == last_index_before(s@, c, s@.len() as int),
            None => last_index_before(s@, c, s@.len() as int) == -1,
        },
{
    let mut i: usize = s.len();
    while i > 0 && s[i - 1] != c
        invariant
            i <= s@.len(),
            last_index_before(s@, c, s@.len() as int) == last_index_before(s@, c, i as int),
        decreases i,
    {
        i -= 1;
    }
    if i == 0 {
        None
    } else {
        Some(i - 1)
    }
}

/// The characters with the Unicode property `White_Space`.
pub open spec fn is_space(c: char) -> bool {
    ||| '\u{0009}' <= c <= '\u{000D}'
    ||| c == ' '
    ||| c == '\u{0085}'
    ||| c == '\u{00A0}'
    ||| c == '\u{1680}'
    ||| '\u{2000}' <= c <= '\u{200A}'
    ||| c == '\u{2028}'
    ||| c == '\u{2029}'
    ||| c == '\u{202F}'
    ||| c == '\u{205F}'
    ||| c == '\u{3000}'
}

/// Whether a character is whitespace.
pub fn is_whitespace(c: char) -> (r: bool)
    ensures
        r == is_space(c),
{
    ('\u{0009}' <= c && c <= '\u{000D}') || c == ' ' || c == '\u{0085}' || c == '\u{00A0}' || c
        == '\u{1680}' || ('\u{2000}' <= c && c <= '\u{200A}') || c == '\u{2028}' || c == '\u{2029}'
        || c == '\u{202F}' || c == '\u{205F}' || c == '\u{3000}'
}

/// The ASCII whitespace characters: space, tab, line feed, form feed,
/// carriage return.
pub open spec fn is_ascii_space(c: char) -> bool {
    c == ' ' || c == '\t' || c == '\n' || c == '\u{000C}' || c == '\r'
}

/// Whether a character is ASCII whitespace.
pub fn is_ascii_whitespace(c: char) -> (r: bool)
    ensures
        r == is_ascii_space(c),
{
    c == ' ' || c == '\t' || c == '\n' || c == '\u{000C}' || c == '\r'
}

/// Index of the first character of `s` at or after `from` that is not
/// whitespace; the length of `s` if there is none.
pub open spec fn skip_space(s: Seq<char>, from: int) -> int
    decreases s.len() - from,
{
    if from < 0 || from >= s.len() {
        s.len() as int
    } else if !is_space(s[from]) {
        from
    } else {
        skip_space(s, from + 1)
    }
}

/// Length of `s` without the whitespace at its end, above `floor`.
pub open spec fn drop_space(s: Seq<char>, floor: int, upto: int) -> int
    decreases upto,
{
    if upto <= floor || upto > s.len() || upto <= 0 {
        floor
    } else if !is_space(s[upto - 1]) {
        upto
    } else {
        drop_space(s, floor, upto - 1)
    }
}

/// `s` without the whitespace at its two ends.
pub open spec fn trimmed(s: Seq<char>) -> Seq<char> {
    let start = skip_space(s, 0);
    s.subrange(start, drop_space(s, start, s.len() as int))
}

/// `s` without the whitespace at its two ends.
pub fn trim(s: &Vec<char>) -> (r: Vec<char>)
    ensures
        r@ == trimmed(s@),
{
    let mut start: usize = 0;
    while start < s.len() && is_whitespace(s[start])
        invariant
            start <= s@.len(),
            skip_space(s@, 0) == skip_space(s@, start as int),
        decreases s@.len() - start,
    {
        start += 1;
    }
    let mut end: usize = s.len();
    while end > start && is_whitespace(s[end - 1])
        invariant
            start <= end <= s@.len(),
            drop_space(s@, start as int, s@.len() as int) == drop_space(
                s@,
                start as int,
                end as int,
            ),
        decreases end,
    {
        end -= 1;
    }
    slice(s, start, end)
}

/// `line` without a carriage return at its end.
pub open spec fn without_cr(line: Seq<char>) -> Seq<char> {
    if line.len() > 0 && line.last() == '\r' {
        line.drop_last()
    } else {
        line
    }
}

/// The lines of `text` from position `from` on. A line ends at a line feed,
/// or at the end of the text; the line feed, and a carriage return before
/// it, are not part of the line.
pub open spec fn lines_from(text: Seq<char>, from: int) -> Seq<Seq<char>>
    decreases text.len() - from,
{
    if from < 0 || from >= text.len() {
        Seq::empty()
    } else {
        let end = index_from(text, '\n', from);
        if end >= text.len() {
            Seq::empty().push(text.subrange(from, text.len() as int))
        } else if end < from {
            Seq::empty()
        } else {
            Seq::empty().push(without_cr(text.subrange(from, end))) + lines_from(text, end + 1)
        }
    }
}

/// The lines of `text`.
pub open spec fn lines_of(text: Seq<char>) -> Seq<Seq<char>> {
    lines_from(text, 0)
}

/// The lines of `text`.
pub fn split_lines(text: &Vec<char>) -> (lines: Vec<Vec<char>>)
    ensures
        views(lines@) == lines_of(text@),
{
    let mut lines: Vec<Vec<char>> = Vec::new();
    let mut from: usize = 0;
    while from < text.len()
        invariant
            from <= text@.len(),
            views(lines@) + lines_from(text@, from as int) == lines_of(text@),
        decreases text@.len() - from,
    {
        let end = find_from(text, '\n', from);
        let ghost done = views(lines@);
        if end >= text.len() {
            let line = slice(text, from, text.len());
            lines.push(line);
            proof {
                assert(views(lines@) =~= done.push(line@));
                assert(lines_from(text@, text@.len() as int) =~= Seq::<Seq<char>>::empty());
                assert(done + lines_from(text@, from as int) =~= done.push(line@));
            }
            from = text.len();
        } else {
            let stop: usize = if end > from && text[end - 1] == '\r' {
                end - 1
            } else {
                end
            };
            let line = slice(text, from, stop);
            lines.push(line);
            proof {
                let whole = text@.subrange(from as int, end as int);
                assert(line@ =~= without_cr(whole));
                assert(views(lines@) =~= done.push(line@));
                assert(done + lines_from(text@, from as int) =~= done.push(line@) + lines_from(
                    text@,
                    end + 1,
                ));
            }
            from = end + 1;
        }
    }
    proof {
        assert(lines_from(text@, from as int) =~= Seq::<Seq<char>>::empty());
        assert(views(lines@) + Seq::<Seq<char>>::empty() =~= views(lines@));
    }
    lines
}

/// How many times `c` occurs among the first `upto` characters of `s`.
pub open spec fn count_before(s: Seq<char>, c: char, upto: int) -> int
    decreases upto,
{
    if upto <= 0 || upto > s.len() {
        0
    } else if s[upto - 1] == c {
        count_before(s, c, upto - 1) + 1
    } else {
        count_before(s, c, upto - 1)
    }
}

/// How many times `c` occurs in `s`.
pub open spec fn count_of(s: Seq<char>, c: char) -> int {
    count_before(s, c, s.len() as int)
}

/// Whether `c` occurs in `s` exactly once.
pub fn occurs_once(s: &Vec<char>, c: char) -> (r: bool)
    ensures
        r == (count_of(s@, c) == 1),
{
    let mut seen: usize = 0;
    let mut i: usize = 0;
    while i < s.len()
        invariant
            i <= s@.len(),
            seen <= 2,
            seen < 2 ==> seen == count_before(s@, c, i as int),
            seen == 2 ==> count_before(s@, c, i as int) >= 2,
        decreases s@.len() - i,
    {
        if s[i] == c && seen < 2 {
            seen += 1;
        }
        i += 1;
    }
    seen == 1
}

/// `s` holds the separator `c`, so that splitting `s` at each `c` gives a
/// second field.
pub open spec fn has_second_field(s: Seq<char>, c: char) -> bool {
    index_from(s, c, 0) < s.len()
}

/// The second of the fields that `s` splits into at each `c`: what stands
/// between the first `c` and the next one, or the end.
pub open spec fn second_field_of(s: Seq<char>, c: char) -> Seq<char> {
    let first = index_from(s, c, 0);
    s.subrange(first + 1, index_from(s, c, first + 1))
}

/// The second of the fields that `s` splits into at each `c`, if `c` occurs.
pub fn second_field(s: &Vec<char>, c: char) -> (r: Option<Vec<char>>)
    ensures
        match r {
            Some(field) => has_second_field(s@, c) && field@ == second_field_of(s@, c),
            None => !has_second_field(s@, c),
        },
{
    let first = find_from(s, c, 0);
    if first >= s.len() {
        return None;
    }
    let next = find_from(s, c, first + 1);
    Some(slice(s, first + 1, next))
}

/// The first `upto` characters of `s` without each `c` among them.
pub open spec fn without_before(s: Seq<char>, c: char, upto: int) -> Seq<char>
    decreases upto,
{
    if upto <= 0 || upto > s.len() {
        Seq::empty()
    } else if s[upto - 1] == c {
        without_before(s, c, upto - 1)
    } else {
        without_before(s, c, upto - 1).push(s[upto - 1])
    }
}

/// `s` without each `c` in it.
pub open spec fn without(s: Seq<char>, c: char) -> Seq<char> {
    without_before(s, c, s.len() as int)
}

/// `s` without each `c` in it.
pub fn remove_char(s: &Vec<char>, c: char) -> (r: Vec<char>)
    ensures
        r@ == without(s@, c),
{
    let mut r: Vec<char> = Vec::new();
    let mut i: usize = 0;
    while i < s.len()
        invariant
            i <= s@.len(),
            r@ == without_before(s@, c, i as int),
        decreases s@.len() - i,
    {
        if s[i] != c {
            r.push(s[i]);
        }
        i += 1;
    }
    r
}

/// `s` from position `at` on, with each occurrence of `from` replaced by
/// `to`. Occurrences are taken from left to right and do not overlap; an
/// empty `from` occurs before each character and at the end.
pub open spec fn replaced_from(s: Seq<char>, from: Seq<char>, to: Seq<char>, at: int) -> Seq<char>
    decreases s.len() - at,
{
    if at < 0 || at >= s.len() {
        if from.len() == 0 {
            to
        } else {
            Seq::empty()
        }
    } else if reads_at(s, at, from) {
        if from.len() == 0 {
            to.push(s[at]) + replaced_from(s, from, to, at + 1)
        } else {
            to + replaced_from(s, from, to, at + from.len())
        }
    } else {
        Seq::empty().push(s[at]) + replaced_from(s, from, to, at + 1)
    }
}

/// `s` with each occurrence of `from` replaced by `to`.
pub open spec fn replaced(s: Seq<char>, from: Seq<char>, to: Seq<char>) -> Seq<char> {
    replaced_from(s, from, to, 0)
}

/// Appends `more` to `text`.
pub fn extend(text: &mut Vec<char>, more: &Vec<char>)
    ensures
        final(text)@ == old(text)@ + more@,
{
    let mut i: usize = 0;
    while i < more.len()
        invariant
            i <= more@.len(),
            text@ == old(text)@ + more@.take(i as int),
        decreases more@.len() - i,
    {
        text.push(more[i]);
        assert(text@ =~= old(text)@ + more@.take(i + 1));
        i += 1;
    }
    assert(more@.take(more@.len() as int) =~= more@);
}

/// `s` with each occurrence of `from` replaced by `to`.
pub fn replace(s: &Vec<char>, from: &Vec<char>, to: &Vec<char>) -> (r: Vec<char>)
    ensures
        r@ == replaced(s@, from@, to@),
{
    let mut r: Vec<char> = Vec::new();
    let mut at: usize = 0;
    while at < s.len()
        invariant
            at <= s@.len(),
            r@ + replaced_from(s@, from@, to@, at as int) == replaced(s@, from@, to@),
        decreases s@.len() - at,
    {
        let ghost done = r@;
        let ghost rest = replaced_from(s@, from@, to@, at as int);
        if matches_at(s, at, from) {
            extend(&mut r, to);
            if from.len() == 0 {
                r.push(s[at]);
                proof {
                    let next = replaced_from(s@, from@, to@, at + 1);
                    assert(r@ + next =~= done + (to@.push(s@[at as int]) + next));
                }
                at += 1;
            } else {
                proof {
                    let next = replaced_from(s@, from@, to@, at + from@.len());
                    assert(r@ + next =~= done + (to@ + next));
                }
                at += from.len();
            }
        } else {
            r.push(s[at]);
            proof {
                let next = replaced_from(s@, from@, to@, at + 1);
                assert(r@ + next =~= done + (Seq::<char>::empty().push(s@[at as int]) + next));
            }
            at += 1;
        }
    }
    if from.len() == 0 {
        let ghost done = r@;
        extend(&mut r, to);
    } else {
        assert(r@ + Seq::<char>::empty() =~= r@);
    }
    r
}

/// A character that occurs in `s` has a first occurrence.
pub proof fn lemma_counted_is_found(s: Seq<char>, c: char, upto: int)
    requires
        0 <= upto <= s.len(),
        count_before(s, c, upto) > 0,
    ensures
        index_from(s, c, 0) < upto,
    decreases upto,
{
    lemma_index_from(s, c, 0);
    if s[upto - 1] != c {
        lemma_counted_is_found(s, c, upto - 1);
    }
}

/// `needle` stands somewhere in `hay`.
pub open spec fn occurs_in(needle: Seq<char>, hay: Seq<char>) -> bool {
    exists|at: int| reads_at(hay, at, needle)
}

/// Whether `needle` stands somewhere in `hay`.
pub fn contains_text(hay: &Vec<char>, needle: &Vec<char>) -> (r: bool)
    ensures
        r == occurs_in(needle@, hay@),
{
    if needle.len() > hay.len() {
        assert forall|at: int| !reads_at(hay@, at, needle@) by {}
        return false;
    }
    let last: usize = hay.len() - needle.len();
    let mut at: usize = 0;
    while at < last
        invariant
            at <= last,
            last == hay@.len() - needle@.len(),
            forall|k: int| 0 <= k < at ==> !reads_at(hay@, k, needle@),
        decreases last - at,
    {
        if matches_at(hay, at, needle) {
            return true;
        }
        at += 1;
    }
    if matches_at(hay, last, needle) {
        return true;
    }
    assert forall|k: int| !reads_at(hay@, k, needle@) by {}
    false
}

/// Whether two texts are the same.
pub fn same_text(a: &Vec<char>, b: &Vec<char>) -> (r: bool)
    ensures
        r == (a@ == b@),
{
    if a.len() != b.len() {
        return false;
    }
    let mut i: usize = 0;
    while i < a.len()
        invariant
            a@.len() == b@.len(),
            i <= a@.len(),
            forall|k: int| 0 <= k < i ==> a@[k] == b@[k],
        decreases a@.len() - i,
    {
        if a[i] != b[i] {
            return false;
        }
        i += 1;
    }
    assert(a@ =~= b@);
    true
}

/// `a` comes before `b` in the order of the dictionary, as far as the two
/// differ from position `i` on: at the first position where they differ
/// `a` has the smaller character, or `a` ends first.
pub open spec fn before_from(a: Seq<char>, b: Seq<char>, i: int) -> bool
    decreases b.len() - i,
{
    if i < 0 || i >= b.len() {
        false
    } else if i >= a.len() {
        true
    } else if a[i] != b[i] {
        a[i] < b[i]
    } else {
        before_from(a, b, i + 1)
    }
}

/// `a` comes before `b` in the order of the dictionary.
pub open spec fn comes_before(a: Seq<char>, b: Seq<char>) -> bool {
    before_from(a, b, 0)
}

/// No text comes before itself.
pub proof fn lemma_before_irreflexive(a: Seq<char>, i: int)
    requires
        0 <= i,
    ensures
        !before_from(a, a, i),
    decreases a.len() - i,
{
    if i < a.len() {
        lemma_before_irreflexive(a, i + 1);
    }
}

/// What comes before a text comes before all that the text comes before.
pub proof fn lemma_before_transitive(a: Seq<char>, b: Seq<char>, c: Seq<char>, i: int)
    requires
        0 <= i,
        before_from(a, b, i),
        before_from(b, c, i),
    ensures
        before_from(a, c, i),
    decreases c.len() - i,
{
    if i < a.len() && a[i] == b[i] && b[i] == c[i] {
        lemma_before_transitive(a, b, c, i + 1);
    }
}

/// Where a text stands beside another in the order of the dictionary.
#[derive(Clone, Copy, Debug, PartialEq, Eq, Structural)]
pub enum Place {
    Before,
    Same,
    After,
}

/// Where `a` stands beside `b` in the order of the dictionary.
pub fn place_of(a: &Vec<char>, b: &Vec<char>) -> (r: Place)
    ensures
        match r {
            Place::Before => comes_before(a@, b@),
            Place::Same => a@ == b@,
            Place::After => comes_before(b@, a@),
        },
{
    let mut i: usize = 0;
    while i < a.len() && i < b.len()
        invariant
            i <= a@.len(),
            i <= b@.len(),
            forall|k: int| 0 <= k < i ==> a@[k] == b@[k],
            comes_before(a@, b@) == before_from(a@, b@, i as int),
            comes_before(b@, a@) == before_from(b@, a@, i as int),
        decreases a@.len() - i,
    {
        if a[i] != b[i] {
            if a[i] < b[i] {
                return Place::Before;
            } else {
                return Place::After;
            }
        }
        i += 1;
    }
    if a.len() == b.len() {
        assert(a@ =~= b@);
        Place::Same
    } else if a.len() < b.len() {
        Place::Before
    } else {
        Place::After
    }
}

} // verus!
