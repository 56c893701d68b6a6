//! Text primitives: splitting, trimming, searching and number conversion.
//!
//! Every function works on slices of characters and is specified over
//! `Seq<char>`, so that the parsers built on top of it can state what they
//! accept without speaking of byte offsets.

use vstd::prelude::*;
use vstd::string::StringExecFns;

verus! {

/// `String::push` appends the given character to the end of the string.
pub assume_specification[ String::push ](s: &mut String, ch: char)
    ensures
        final(s)@ == old(s)@.push(ch),
;

// ---------------------------------------------------------------------------
// Conversions
// ---------------------------------------------------------------------------

/// The characters of a string.
pub fn chars_of(s: &str) -> (r: Vec<char>)
    ensures
        r@ == s@,
{
    let mut v: Vec<char> = Vec::new();
    for c in it: s.chars()
        invariant
            v@ == it.seq().take(it.index() as int),
            it.seq() == s@,
    {
        v.push(c);
    }
    v
}

/// The string made of the given characters.
pub fn string_of(s: &[char]) -> (r: String)
    ensures
        r@ == s@,
{
    let mut out = String::new();
    let mut i: usize = 0;
    while i < s.len()
        invariant
            i <= s.len(),
            out@ == s@.take(i as int),
        decreases s.len() - i,
    {
        out.push(s[i]);
        i += 1;
    }
    out
}

/// The contents of a list of character slices.
pub open spec fn views(parts: Seq<&[char]>) -> Seq<Seq<char>> {
    Seq::new(parts.len(), |i: int| parts[i]@)
}

/// The contents of a list of strings.
pub open spec fn strings(parts: Seq<String>) -> Seq<Seq<char>> {
    Seq::new(parts.len(), |i: int| parts[i]@)
}

/// Whether two character sequences are the same.
pub fn same(a: &[char], b: &[char]) -> (r: bool)
    ensures
        r == (a@ == b@),
{
    if a.len() != b.len() {
        return false;
    }
    let mut i: usize = 0;
    while i < a.len()
        invariant
            i <= a.len(),
            a.len() == b.len(),
            forall|k: int| 0 <= k < i ==> a@[k] == b@[k],
        decreases a.len() - i,
    {
        if a[i] != b[i] {
            return false;
        }
        i += 1;
    }
    assert(a@ =~= b@);
    true
}

/// Whether a character sequence spells the given text.
pub fn spells(a: &[char], word: &str) -> (r: bool)
    ensures
        r == (a@ == word@),
{
    let w = chars_of(word);
    same(a, w.as_slice())
}

/// Whether two strings are the same.
pub fn same_text(a: &str, b: &str) -> (r: bool)
    ensures
        r == (a@ == b@),
{
    let x = chars_of(a);
    spells(x.as_slice(), b)
}

/// The part of a slice from `lo` up to, but not including, `hi`.
pub fn part<'a>(s: &'a [char], lo: usize, hi: usize) -> (r: &'a [char])
    requires
        lo <= hi <= s.len(),
    ensures
        r@ == s@.subrange(lo as int, hi as int),
{
    &s[lo..hi]
}

// ---------------------------------------------------------------------------
// White space
// ---------------------------------------------------------------------------

/// Whether `c` has the Unicode property White_Space.
pub open spec fn is_white(c: char) -> bool {
    let n = c as u32;
    ||| 0x09 <= n <= 0x0d
    ||| n == 0x20
    ||| n == 0x85
    ||| n == 0xa0
    ||| n == 0x1680
    ||| 0x2000 <= n <= 0x200a
    ||| n == 0x2028
    ||| n == 0x2029
    ||| n == 0x202f
    ||| n == 0x205f
    ||| n == 0x3000
}

pub fn white(c: char) -> (r: bool)
    ensures
        r == is_white(c),
{
    let n: u32 = c as u32;
    (0x09 <= n && n <= 0x0d) || n == 0x20 || n == 0x85 || n == 0xa0 || n == 0x1680
        || (0x2000 <= n && n <= 0x200a) || n == 0x2028 || n == 0x2029 || n == 0x202f || n == 0x205f
        || n == 0x3000
}

/// `s` without its leading white space.
pub open spec fn trim_start(s: Seq<char>) -> Seq<char>
    decreases s.len(),
{
    if s.len() > 0 && is_white(s[0]) {
        trim_start(s.skip(1))
    } else {
        s
    }
}

/// `s` without its trailing white space.
pub open spec fn trim_end(s: Seq<char>) -> Seq<char>
    decreases s.len(),
{
    if s.len() > 0 && is_white(s.last()) {
        trim_end(s.drop_last())
    } else {
        s
    }
}

/// `s` without the white space at either end.
pub open spec fn trimmed(s: Seq<char>) -> Seq<char> {
    trim_end(trim_start(s))
}

/// Removes the white space at both ends.
pub fn trim<'a>(s: &'a [char]) -> (r: &'a [char])
    ensures
        r@ == trimmed(s@),
{
    let mut lo: usize = 0;
    assert(s@.skip(0) =~= s@);
    while lo < s.len() && white(s[lo])
        invariant
            lo <= s.len(),
            trim_start(s@) == trim_start(s@.skip(lo as int)),
        decreases s.len() - lo,
    {
        assert(s@.skip(lo as int).skip(1) =~= s@.skip(lo + 1));
        lo += 1;
    }
    let ghost t = s@.skip(lo as int);
    assert(trim_start(s@) == t);
    let mut hi: usize = s.len();
    assert(s@.subrange(lo as int, hi as int) =~= t);
    while hi > lo && white(s[hi - 1])
        invariant
            lo <= hi <= s.len(),
            trim_end(t) == trim_end(s@.subrange(lo as int, hi as int)),
        decreases hi,
    {
        assert(s@.subrange(lo as int, hi as int).drop_last() =~= s@.subrange(
            lo as int,
            hi - 1,
        ));
        hi -= 1;
    }
    part(s, lo, hi)
}

/// `s` without any number of copies of `c` at its start.
pub open spec fn without_leading(s: Seq<char>, c: char) -> Seq<char>
    decreases s.len(),
{
    if s.len() > 0 && s[0] == c {
        without_leading(s.skip(1), c)
    } else {
        s
    }
}

/// Removes every copy of `c` at the start.
pub fn strip_leading<'a>(s: &'a [char], c: char) -> (r: &'a [char])
    ensures
        r@ == without_leading(s@, c),
{
    let mut lo: usize = 0;
    assert(s@.skip(0) =~= s@);
    while lo < s.len() && s[lo] == c
        invariant
            lo <= s.len(),
            without_leading(s@, c) == without_leading(s@.skip(lo as int), c),
        decreases s.len() - lo,
    {
        assert(s@.skip(lo as int).skip(1) =~= s@.skip(lo + 1));
        lo += 1;
    }
    assert(s@.subrange(lo as int, s@.len() as int) =~= s@.skip(lo as int));
    part(s, lo, s.len())
}

/// Text that starts and ends with a visible character is already trimmed.
pub proof fn lemma_trimmed_fixed(s: Seq<char>)
    requires
        s.len() == 0 || (!is_white(s[0]) && !is_white(s.last())),
    ensures
        trimmed(s) == s,
{
}

proof fn lemma_trim_start(s: Seq<char>)
    ensures
        trim_start(s).len() > 0 ==> !is_white(trim_start(s)[0]),
        forall|i: int| 0 <= i < trim_start(s).len() ==> s.contains(#[trigger] trim_start(s)[i]),
    decreases s.len(),
{
    if s.len() > 0 && is_white(s[0]) {
        lemma_trim_start(s.skip(1));
        assert forall|i: int| 0 <= i < trim_start(s).len() implies s.contains(
            #[trigger] trim_start(s)[i],
        ) by {
            let k = choose|k: int| 0 <= k < s.skip(1).len() && s.skip(1)[k] == trim_start(s)[i];
            assert(s[k + 1] == trim_start(s)[i]);
        }
    }
}

proof fn lemma_trim_end(s: Seq<char>)
    ensures
        trim_end(s).len() <= s.len(),
        trim_end(s) == s.take(trim_end(s).len() as int),
        trim_end(s).len() > 0 ==> !is_white(trim_end(s).last()),
    decreases s.len(),
{
    if s.len() > 0 && is_white(s.last()) {
        lemma_trim_end(s.drop_last());
        assert(s.drop_last().take(trim_end(s).len() as int) =~= s.take(trim_end(s).len() as int));
    } else {
        assert(s.take(s.len() as int) =~= s);
    }
}

/// Trimming keeps no other characters, and trimming again changes nothing.
pub proof fn lemma_trimmed(s: Seq<char>)
    ensures
        trimmed(trimmed(s)) == trimmed(s),
        forall|i: int| 0 <= i < trimmed(s).len() ==> s.contains(#[trigger] trimmed(s)[i]),
{
    let t = trim_start(s);
    lemma_trim_start(s);
    lemma_trim_end(t);
    assert forall|i: int| 0 <= i < trimmed(s).len() implies s.contains(#[trigger] trimmed(s)[i]) by {
        assert(trimmed(s)[i] == t[i]);
    }
    if trimmed(s).len() > 0 {
        assert(trimmed(s)[0] == t[0]);
    }
    lemma_trimmed_fixed(trimmed(s));
}

/// Trims a string.
pub fn trim_text(s: &str) -> (r: String)
    ensures
        r@ == trimmed(s@),
{
    let c = chars_of(s);
    string_of(trim(c.as_slice()))
}

// ---------------------------------------------------------------------------
// Splitting
// ---------------------------------------------------------------------------

/// The pieces of `s` between the characters that satisfy `p`; there is always
/// one piece more than there are separators.
pub open spec fn split_by(s: Seq<char>, p: spec_fn(char) -> bool) -> Seq<Seq<char>>
    decreases s.len(),
{
    if s.len() == 0 {
        seq![Seq::<char>::empty()]
    } else {
        let rest = split_by(s.drop_last(), p);
        if p(s.last()) {
            rest.push(Seq::<char>::empty())
        } else {
            rest.drop_last().push(rest.last().push(s.last()))
        }
    }
}

/// The predicate that holds of one character only.
pub open spec fn only(sep: char) -> spec_fn(char) -> bool {
    |c: char| c == sep
}

/// The predicate that holds of white space.
pub open spec fn white_space() -> spec_fn(char) -> bool {
    |c: char| is_white(c)
}

pub proof fn lemma_split_nonempty(s: Seq<char>, p: spec_fn(char) -> bool)
    ensures
        split_by(s, p).len() >= 1,
    decreases s.len(),
{
    if s.len() > 0 {
        lemma_split_nonempty(s.drop_last(), p);
    }
}

/// Text without a separator is one piece.
pub proof fn lemma_split_whole(s: Seq<char>, p: spec_fn(char) -> bool)
    requires
        forall|i: int| 0 <= i < s.len() ==> !p(s[i]),
    ensures
        split_by(s, p) == seq![s],
    decreases s.len(),
{
    if s.len() > 0 {
        lemma_split_whole(s.drop_last(), p);
        assert(s.drop_last().push(s.last()) =~= s);
        assert(split_by(s, p) =~= seq![s]);
    } else {
        assert(s =~= Seq::<char>::empty());
    }
}

/// The pieces between the occurrences of one separator character.
pub open spec fn split_at_char(s: Seq<char>, sep: char) -> Seq<Seq<char>> {
    split_by(s, only(sep))
}

/// Splits at every occurrence of `sep`.
pub fn split_char<'a>(s: &'a [char], sep: char) -> (r: Vec<&'a [char]>)
    ensures
        views(r@) == split_at_char(s@, sep),
        r@.len() >= 1,
{
    let mut out: Vec<&'a [char]> = Vec::new();
    let mut start: usize = 0;
    let mut i: usize = 0;
    let ghost p = only(sep);
    while i < s.len()
        invariant
            start <= i <= s.len(),
            p == only(sep),
            split_by(s@.take(i as int), p).len() >= 1,
            split_by(s@.take(i as int), p).drop_last() =~= views(out@),
            split_by(s@.take(i as int), p).last() =~= s@.subrange(start as int, i as int),
        decreases s.len() - i,
    {
        assert(s@.take(i + 1).drop_last() =~= s@.take(i as int));
        let ghost before = out@;
        if s[i] == sep {
            out.push(part(s, start, i));
            assert(views(out@) =~= views(before).push(s@.subrange(start as int, i as int)));
            start = i + 1;
        } else {
            assert(s@.subrange(start as int, i + 1) =~= s@.subrange(start as int, i as int).push(
                s@[i as int],
            ));
        }
        i += 1;
    }
    assert(s@.take(i as int) =~= s@);
    let ghost before = out@;
    out.push(part(s, start, i));
    assert(views(out@) =~= views(before).push(s@.subrange(start as int, i as int)));
    assert(views(out@) =~= split_by(s@, p));
    out
}

/// The parts that are not empty, in order.
pub open spec fn non_empty(parts: Seq<Seq<char>>) -> Seq<Seq<char>>
    decreases parts.len(),
{
    if parts.len() == 0 {
        parts
    } else if parts.last().len() > 0 {
        non_empty(parts.drop_last()).push(parts.last())
    } else {
        non_empty(parts.drop_last())
    }
}

/// The words of `s`: its maximal runs of characters that are not white space.
pub open spec fn words(s: Seq<char>) -> Seq<Seq<char>> {
    non_empty(split_by(s, white_space()))
}

/// Splits into words.
pub fn split_words<'a>(s: &'a [char]) -> (r: Vec<&'a [char]>)
    ensures
        views(r@) == words(s@),
{
    let mut out: Vec<&'a [char]> = Vec::new();
    let mut start: usize = 0;
    let mut i: usize = 0;
    let ghost p = white_space();
    while i < s.len()
        invariant
            start <= i <= s.len(),
            p == white_space(),
            split_by(s@.take(i as int), p).len() >= 1,
            non_empty(split_by(s@.take(i as int), p).drop_last()) =~= views(out@),
            split_by(s@.take(i as int), p).last() =~= s@.subrange(start as int, i as int),
        decreases s.len() - i,
    {
        assert(s@.take(i + 1).drop_last() =~= s@.take(i as int));
        let ghost parts = split_by(s@.take(i as int), p);
        let ghost before = out@;
        if white(s[i]) {
            let ghost next = split_by(s@.take(i + 1), p);
            assert(next.drop_last() =~= parts);
            if start < i {
                out.push(part(s, start, i));
                assert(views(out@) =~= views(before).push(s@.subrange(start as int, i as int)));
            }
            start = i + 1;
        } else {
            let ghost next = split_by(s@.take(i + 1), p);
            assert(next.drop_last() =~= parts.drop_last());
            assert(s@.subrange(start as int, i + 1) =~= s@.subrange(start as int, i as int).push(
                s@[i as int],
            ));
        }
        i += 1;
    }
    assert(s@.take(i as int) =~= s@);
    let ghost before = out@;
    if start < i {
        out.push(part(s, start, i));
        assert(views(out@) =~= views(before).push(s@.subrange(start as int, i as int)));
    }
    out
}

/// `s` without one carriage return at its end.
pub open spec fn without_cr(s: Seq<char>) -> Seq<char> {
    if s.len() > 0 && s.last() == '\r' {
        s.drop_last()
    } else {
        s
    }
}

/// The lines of `s`. A line ends with a line feed, or a carriage return and a
/// line feed; the last line need not end at all.
pub open spec fn lines(s: Seq<char>) -> Seq<Seq<char>> {
    let parts = split_at_char(s, '\n');
    let ended = Seq::new((parts.len() - 1) as nat, |i: int| without_cr(parts[i]));
    if parts.last().len() > 0 {
        ended.push(parts.last())
    } else {
        ended
    }
}

/// Splits into lines.
pub fn split_lines<'a>(s: &'a [char]) -> (r: Vec<&'a [char]>)
    ensures
        views(r@) == lines(s@),
{
    let parts = split_char(s, '\n');
    let ghost spec_parts = split_at_char(s@, '\n');
    let mut out: Vec<&'a [char]> = Vec::new();
    let last: usize = parts.len() - 1;
    let mut i: usize = 0;
    while i < last
        invariant
            i <= last,
            last == parts.len() - 1,
            views(parts@) == spec_parts,
            out.len() == i,
            forall|k: int| 0 <= k < i ==> out@[k]@ == without_cr(spec_parts[k]),
        decreases last - i,
    {
        let piece = parts[i];
        assert(piece@ == views(parts@)[i as int]);
        let n: usize = piece.len();
        if n > 0 && piece[n - 1] == '\r' {
            let short = part(piece, 0, n - 1);
            assert(short@ =~= piece@.drop_last());
            out.push(short);
        } else {
            out.push(piece);
        }
        i += 1;
    }
    let piece = parts[last];
    assert(piece@ == views(parts@)[last as int]);
    if piece.len() > 0 {
        out.push(piece);
    }
    assert(views(out@) =~= lines(s@));
    out
}

// ---------------------------------------------------------------------------
// Searching
// ---------------------------------------------------------------------------

/// Whether `pat` stands in `s` at position `at`.
pub open spec fn occurs_at(s: Seq<char>, pat: Seq<char>, at: int) -> bool {
    0 <= at && at + pat.len() <= s.len() && s.subrange(at, at + pat.len()) == pat
}

/// Whether `pat` stands anywhere in `s`.
pub open spec fn contains_text(s: Seq<char>, pat: Seq<char>) -> bool {
    exists|at: int| occurs_at(s, pat, at)
}

/// Whether `s` begins with `pat`.
pub open spec fn has_prefix(s: Seq<char>, pat: Seq<char>) -> bool {
    occurs_at(s, pat, 0)
}

/// Whether `s` ends with `pat`.
pub open spec fn has_suffix(s: Seq<char>, pat: Seq<char>) -> bool {
    occurs_at(s, pat, s.len() - pat.len())
}

pub fn matches_at(s: &[char], pat: &[char], at: usize) -> (r: bool)
    ensures
        r == occurs_at(s@, pat@, at as int),
{
    if at > s.len() || pat.len() > s.len() - at {
        return false;
    }
    same(part(s, at, at + pat.len()), pat)
}

/// Whether `s` holds `pat`.
pub fn contains(s: &[char], pat: &[char]) -> (r: bool)
    ensures
        r == contains_text(s@, pat@),
{
    if pat.len() > s.len() {
        assert forall|at: int| !occurs_at(s@, pat@, at) by {}
        return false;
    }
    let stop: usize = s.len() - pat.len();
    let mut at: usize = 0;
    loop
        invariant
            at <= stop,
            stop == s.len() - pat.len(),
            forall|k: int| 0 <= k < at ==> !occurs_at(s@, pat@, k),
        decreases stop - at,
    {
        if matches_at(s, pat, at) {
            return true;
        }
        if at == stop {
            assert forall|k: int| !occurs_at(s@, pat@, k) by {}
            return false;
        }
        at += 1;
    }
}

/// Whether one string holds another.
pub fn text_contains(s: &str, pat: &str) -> (r: bool)
    ensures
        r == contains_text(s@, pat@),
{
    let a = chars_of(s);
    let b = chars_of(pat);
    contains(a.as_slice(), b.as_slice())
}

/// Whether `s` holds the character `c`.
pub fn has_char(s: &[char], c: char) -> (r: bool)
    ensures
        r == s@.contains(c),
{
    let mut i: usize = 0;
    while i < s.len()
        invariant
            i <= s.len(),
            forall|k: int| 0 <= k < i ==> s@[k] != c,
        decreases s.len() - i,
    {
        if s[i] == c {
            assert(s@[i as int] == c);
            return true;
        }
        i += 1;
    }
    false
}

/// What stands in `s` after the prefix `pat`, where `s` begins with it.
pub open spec fn after_prefix(s: Seq<char>, pat: Seq<char>) -> Option<Seq<char>> {
    if has_prefix(s, pat) {
        Some(s.skip(pat.len() as int))
    } else {
        None
    }
}

/// The contents of an optional slice.
pub open spec fn opt_view(o: Option<&[char]>) -> Option<Seq<char>> {
    match o {
        Some(v) => Some(v@),
        None => None,
    }
}

/// Removes the prefix `pat`.
pub fn strip_prefix<'a>(s: &'a [char], pat: &str) -> (r: Option<&'a [char]>)
    ensures
        opt_view(r) == after_prefix(s@, pat@),
{
    let p = chars_of(pat);
    if matches_at(s, p.as_slice(), 0) {
        let rest = part(s, p.len(), s.len());
        assert(rest@ =~= s@.skip(p@.len() as int));
        Some(rest)
    } else {
        None
    }
}

/// Whether `s` begins with `pat`.
pub fn starts_with(s: &[char], pat: &str) -> (r: bool)
    ensures
        r == has_prefix(s@, pat@),
{
    let p = chars_of(pat);
    matches_at(s, p.as_slice(), 0)
}

/// `s` without any number of copies of `pat` at its end.
pub open spec fn without_suffixes(s: Seq<char>, pat: Seq<char>) -> Seq<char>
    decreases s.len(),
{
    if pat.len() > 0 && has_suffix(s, pat) {
        without_suffixes(s.take(s.len() - pat.len()), pat)
    } else {
        s
    }
}

/// Removes every copy of `pat` at the end.
pub fn strip_suffixes<'a>(s: &'a [char], pat: &str) -> (r: &'a [char])
    ensures
        r@ == without_suffixes(s@, pat@),
{
    let p = chars_of(pat);
    let n: usize = p.len();
    let mut hi: usize = s.len();
    assert(s@.take(hi as int) =~= s@);
    while n > 0 && n <= hi && matches_at(part(s, 0, hi), p.as_slice(), hi - n)
        invariant
            hi <= s.len(),
            n == p.len(),
            p@ == pat@,
            without_suffixes(s@, pat@) == without_suffixes(s@.take(hi as int), pat@),
        decreases hi,
    {
        assert(s@.subrange(0, hi as int) =~= s@.take(hi as int));
        assert(s@.take(hi as int).take(hi - n) =~= s@.take(hi - n));
        hi -= n;
    }
    assert(s@.subrange(0, hi as int) =~= s@.take(hi as int));
    part(s, 0, hi)
}

/// The first position of `c` in `s`.
pub open spec fn first_of(s: Seq<char>, c: char) -> Option<int>
    decreases s.len(),
{
    if s.len() == 0 {
        None
    } else if s[0] == c {
        Some(0)
    } else {
        match first_of(s.skip(1), c) {
            Some(i) => Some(i + 1),
            None => None,
        }
    }
}

/// What the first position is: `c` stands there and nowhere before.
pub proof fn lemma_first_position(s: Seq<char>, c: char)
    ensures
        match first_of(s, c) {
            Some(i) => 0 <= i < s.len() && s[i] == c && forall|k: int| 0 <= k < i ==> s[k] != c,
            None => !s.contains(c),
        },
    decreases s.len(),
{
    if s.len() > 0 && s[0] != c {
        let rest = s.skip(1);
        lemma_first_position(rest, c);
        match first_of(rest, c) {
            Some(i) => {
                assert forall|k: int| 0 <= k < i + 1 implies s[k] != c by {
                    if k > 0 {
                        assert(rest[k - 1] == s[k]);
                    }
                }
            },
            None => {
                assert forall|k: int| 0 <= k < s.len() implies s[k] != c by {
                    if k > 0 {
                        assert(rest[k - 1] == s[k]);
                    }
                }
            },
        }
    }
}

pub proof fn lemma_first_of(s: Seq<char>, c: char, i: int)
    requires
        0 <= i <= s.len(),
        forall|k: int| 0 <= k < i ==> s[k] != c,
    ensures
        i < s.len() && s[i] == c ==> first_of(s, c) == Some(i),
        i == s.len() ==> first_of(s, c) is None,
    decreases s.len(),
{
    if i > 0 {
        assert forall|k: int| 0 <= k < i - 1 implies s.skip(1)[k] != c by {
            assert(s[k + 1] != c);
        }
        lemma_first_of(s.skip(1), c, i - 1);
    }
}

/// Finds the first occurrence of `c`.
pub fn find_char(s: &[char], c: char) -> (r: Option<usize>)
    ensures
        match r {
            Some(i) => first_of(s@, c) == Some(i as int) && i < s.len() && s@[i as int] == c,
            None => first_of(s@, c) is None,
        },
{
    let mut i: usize = 0;
    while i < s.len()
        invariant
            i <= s.len(),
            forall|k: int| 0 <= k < i ==> s@[k] != c,
        decreases s.len() - i,
    {
        if s[i] == c {
            proof {
                lemma_first_of(s@, c, i as int);
            }
            return Some(i);
        }
        i += 1;
    }
    proof {
        lemma_first_of(s@, c, i as int);
    }
    None
}

// ---------------------------------------------------------------------------
// Joining
// ---------------------------------------------------------------------------

/// The parts one after the other, with `sep` between neighbours.
pub open spec fn joined(parts: Seq<Seq<char>>, sep: Seq<char>) -> Seq<char>
    decreases parts.len(),
{
    if parts.len() == 0 {
        Seq::empty()
    } else if parts.len() == 1 {
        parts[0]
    } else {
        joined(parts.drop_last(), sep) + sep + parts.last()
    }
}

/// Joins the parts from index `from` on.
pub fn join_from(parts: &Vec<&[char]>, from: usize, sep: &str) -> (r: String)
    requires
        from <= parts.len(),
    ensures
        r@ == joined(views(parts@).skip(from as int), sep@),
{
    let mut out = String::new();
    let ghost all = views(parts@).skip(from as int);
    let mut i: usize = from;
    assert(all.take(0) =~= Seq::<Seq<char>>::empty());
    while i < parts.len()
        invariant
            from <= i <= parts.len(),
            all == views(parts@).skip(from as int),
            out@ == joined(all.take(i - from), sep@),
        decreases parts.len() - i,
    {
        let ghost n = i - from;
        assert(all.take(n + 1).drop_last() =~= all.take(n));
        assert(all.take(n + 1).last() == parts@[i as int]@);
        let piece = string_of(parts[i]);
        if i > from {
            out.append(sep);
            out.append(piece.as_str());
            assert(out@ == joined(all.take(n + 1), sep@));
        } else {
            out.append(piece.as_str());
            assert(out@ =~= piece@);
            assert(all.take(1)[0] == piece@);
        }
        i += 1;
    }
    assert(all.take(i - from) =~= all);
    out
}

// ---------------------------------------------------------------------------
// Numbers
// ---------------------------------------------------------------------------

/// The value of one digit, where `c` is a digit in base `radix`.
pub open spec fn digit_value(c: char, radix: nat) -> Option<nat> {
    let n = c as u32;
    let v: nat = if 0x30 <= n <= 0x39 {
        (n - 0x30) as nat
    } else if 0x61 <= n <= 0x7a {
        (n - 0x61 + 10) as nat
    } else if 0x41 <= n <= 0x5a {
        (n - 0x41 + 10) as nat
    } else {
        radix
    };
    if v < radix {
        Some(v)
    } else {
        None
    }
}

/// The value of a run of digits.
pub open spec fn digits_value(s: Seq<char>, radix: nat) -> Option<nat>
    decreases s.len(),
{
    if s.len() == 0 {
        Some(0nat)
    } else {
        match (digits_value(s.drop_last(), radix), digit_value(s.last(), radix)) {
            (Some(v), Some(d)) => Some(v * radix + d),
            _ => None,
        }
    }
}

/// The number that `s` writes: one or more digits, after an optional plus sign.
pub open spec fn unsigned_value(s: Seq<char>, radix: nat) -> Option<nat> {
    let body = if s.len() > 0 && s[0] == '+' {
        s.skip(1)
    } else {
        s
    };
    if body.len() == 0 {
        None
    } else {
        digits_value(body, radix)
    }
}

/// The number that `s` writes in base ten, with an optional sign.
pub open spec fn signed_value(s: Seq<char>) -> Option<int> {
    if s.len() > 0 && s[0] == '-' {
        if s.len() == 1 {
            None
        } else {
            match digits_value(s.skip(1), 10) {
                Some(v) => Some(-(v as int)),
                None => None,
            }
        }
    } else {
        match unsigned_value(s, 10) {
            Some(v) => Some(v as int),
            None => None,
        }
    }
}

pub open spec fn as_u64(v: Option<nat>) -> Option<u64> {
    match v {
        Some(n) => if n <= u64::MAX {
            Some(n as u64)
        } else {
            None
        },
        None => None,
    }
}

pub open spec fn as_u32(v: Option<nat>) -> Option<u32> {
    match v {
        Some(n) => if n <= u32::MAX {
            Some(n as u32)
        } else {
            None
        },
        None => None,
    }
}

pub open spec fn as_i64(v: Option<int>) -> Option<i64> {
    match v {
        Some(n) => if i64::MIN <= n <= i64::MAX {
            Some(n as i64)
        } else {
            None
        },
        None => None,
    }
}

/// The value, or `default` where there is none.
pub open spec fn value_or<T>(o: Option<T>, default: T) -> T {
    match o {
        Some(v) => v,
        None => default,
    }
}

fn digit(c: char, radix: u64) -> (r: Option<u64>)
    requires
        radix <= 36,
    ensures
        match r {
            Some(d) => digit_value(c, radix as nat) == Some(d as nat) && d < radix,
            None => digit_value(c, radix as nat) is None,
        },
{
    let n: u32 = c as u32;
    let v: u64 = if 0x30 <= n && n <= 0x39 {
        (n - 0x30) as u64
    } else if 0x61 <= n && n <= 0x7a {
        (n - 0x61 + 10) as u64
    } else if 0x41 <= n && n <= 0x5a {
        (n - 0x41 + 10) as u64
    } else {
        radix
    };
    if v < radix {
        Some(v)
    } else {
        None
    }
}

/// A number is at least the number that its first digits write.
proof fn lemma_prefix_value(s: Seq<char>, n: int, radix: nat)
    requires
        0 <= n <= s.len(),
        radix >= 1,
        digits_value(s, radix) is Some,
    ensures
        digits_value(s.take(n), radix) is Some,
        digits_value(s.take(n), radix)->0 <= digits_value(s, radix)->0,
    decreases s.len(),
{
    if n == s.len() {
        assert(s.take(n) =~= s);
    } else {
        lemma_prefix_value(s.drop_last(), n, radix);
        assert(s.drop_last().take(n) =~= s.take(n));
        let v = digits_value(s.drop_last(), radix)->0;
        assert(v * radix >= v) by (nonlinear_arith)
            requires
                radix >= 1,
        ;
    }
}

/// Reads digits in base `radix`; nothing where one is no digit or the value
/// exceeds `max`.
fn read_digits(s: &[char], radix: u64, max: u64) -> (r: Option<u64>)
    requires
        2 <= radix <= 36,
    ensures
        match r {
            Some(v) => digits_value(s@, radix as nat) == Some(v as nat) && v <= max,
            None => match digits_value(s@, radix as nat) {
                Some(v) => v > max,
                None => true,
            },
        },
{
    let mut acc: u64 = 0;
    let mut i: usize = 0;
    assert(s@.take(0) =~= Seq::<char>::empty());
    while i < s.len()
        invariant
            i <= s.len(),
            2 <= radix <= 36,
            acc <= max,
            digits_value(s@.take(i as int), radix as nat) == Some(acc as nat),
        decreases s.len() - i,
    {
        assert(s@.take(i + 1).drop_last() =~= s@.take(i as int));
        assert(s@.take(i + 1).last() == s@[i as int]);
        match digit(s[i], radix) {
            None => {
                proof {
                    if digits_value(s@, radix as nat) is Some {
                        lemma_prefix_value(s@, i + 1, radix as nat);
                    }
                }
                return None;
            },
            Some(d) => {
                assert(acc as u128 * radix as u128 <= u64::MAX * 36) by (nonlinear_arith)
                    requires
                        acc <= u64::MAX,
                        radix <= 36,
                ;
                let wide: u128 = acc as u128 * radix as u128 + d as u128;
                assert(wide == acc as nat * radix as nat + d as nat);
                if wide > max as u128 {
                    proof {
                        if digits_value(s@, radix as nat) is Some {
                            lemma_prefix_value(s@, i + 1, radix as nat);
                        }
                    }
                    return None;
                }
                acc = wide as u64;
            },
        }
        i += 1;
    }
    assert(s@.take(i as int) =~= s@);
    Some(acc)
}

fn read_unsigned(s: &[char], radix: u64, max: u64) -> (r: Option<u64>)
    requires
        2 <= radix <= 36,
    ensures
        match r {
            Some(v) => unsigned_value(s@, radix as nat) == Some(v as nat) && v <= max,
            None => match unsigned_value(s@, radix as nat) {
                Some(v) => v > max,
                None => true,
            },
        },
{
    let lo: usize = if s.len() > 0 && s[0] == '+' {
        1
    } else {
        0
    };
    let body = part(s, lo, s.len());
    assert(body@ =~= if lo == 1 {
        s@.skip(1)
    } else {
        s@
    });
    if body.len() == 0 {
        return None;
    }
    read_digits(body, radix, max)
}

/// Reads a decimal `u64`.
pub fn parse_u64(s: &[char]) -> (r: Option<u64>)
    ensures
        r == as_u64(unsigned_value(s@, 10)),
{
    read_unsigned(s, 10, u64::MAX)
}

/// Reads a hexadecimal `u64`.
pub fn parse_hex_u64(s: &[char]) -> (r: Option<u64>)
    ensures
        r == as_u64(unsigned_value(s@, 16)),
{
    read_unsigned(s, 16, u64::MAX)
}

/// Reads a decimal `u32`.
pub fn parse_u32(s: &[char]) -> (r: Option<u32>)
    ensures
        r == as_u32(unsigned_value(s@, 10)),
{
    match read_unsigned(s, 10, u32::MAX as u64) {
        Some(v) => Some(v as u32),
        None => None,
    }
}

/// Reads a decimal `i64`.
pub fn parse_i64(s: &[char]) -> (r: Option<i64>)
    ensures
        r == as_i64(signed_value(s@)),
{
    if s.len() > 0 && s[0] == '-' {
        if s.len() == 1 {
            return None;
        }
        let body = part(s, 1, s.len());
        assert(body@ =~= s@.skip(1));
        match read_digits(body, 10, 0x8000_0000_0000_0000) {
            None => None,
            Some(v) => if v == 0x8000_0000_0000_0000 {
                Some(i64::MIN)
            } else {
                Some(-(v as i64))
            },
        }
    } else {
        match read_unsigned(s, 10, i64::MAX as u64) {
            Some(v) => Some(v as i64),
            None => None,
        }
    }
}

/// The character of a decimal digit.
pub open spec fn digit_char(d: nat) -> char {
    ((0x30 + d) as u32) as char
}

/// The decimal notation of `n`.
pub open spec fn decimal(n: nat) -> Seq<char>
    decreases n,
{
    if n < 10 {
        seq![digit_char(n)]
    } else {
        decimal(n / 10).push(digit_char(n % 10))
    }
}

fn digit_to_char(d: u64) -> (r: char)
    requires
        d < 10,
    ensures
        r == digit_char(d as nat),
{
    (0x30 + d as u8) as char
}

/// Writes a number in decimal.
pub fn decimal_text(n: u64) -> (r: String)
    ensures
        r@ == decimal(n as nat),
    decreases n,
{
    if n < 10 {
        let mut out = String::new();
        out.push(digit_to_char(n));
        assert(out@ =~= seq![digit_char(n as nat)]);
        out
    } else {
        let mut out = decimal_text(n / 10);
        out.push(digit_to_char(n % 10));
        out
    }
}

/// The decimal notation of a number with a sign.
pub open spec fn signed_decimal(n: int) -> Seq<char> {
    if n < 0 {
        "-"@ + decimal((-n) as nat)
    } else {
        decimal(n as nat)
    }
}

/// Writes a number with a sign in decimal.
pub fn signed_text(n: i64) -> (r: String)
    ensures
        r@ == signed_decimal(n as int),
{
    if n < 0 {
        let magnitude: u64 = (-(n + 1)) as u64 + 1;
        let mut out = String::from_str("-");
        out.append(decimal_text(magnitude).as_str());
        out
    } else {
        decimal_text(n as u64)
    }
}

pub proof fn lemma_decimal_digits(n: nat)
    ensures
        decimal(n).len() >= 1,
        forall|i: int|
            0 <= i < decimal(n).len() ==> 0x30 <= (#[trigger] decimal(n)[i]) as u32 <= 0x39,
        digits_value(decimal(n), 10) == Some(n),
    decreases n,
{
    if n < 10 {
        let one = seq![digit_char(n)];
        assert(one.drop_last() =~= Seq::<char>::empty());
        assert(digits_value(one.drop_last(), 10) == Some(0nat));
        assert(digit_value(one.last(), 10) == Some(n));
    } else {
        lemma_decimal_digits(n / 10);
        assert(decimal(n).drop_last() =~= decimal(n / 10));
        assert(digit_value(decimal(n).last(), 10) == Some(n % 10));
    }
}

/// A number that is written in decimal reads back as itself, and trimming
/// takes nothing off it.
pub proof fn law_decimal_round_trip(n: u64)
    ensures
        as_u64(unsigned_value(decimal(n as nat), 10)) == Some(n),
        trimmed(decimal(n as nat)) == decimal(n as nat),
{
    lemma_decimal_digits(n as nat);
    let d = decimal(n as nat);
    assert(0x30 <= d[0] as u32 <= 0x39);
    assert(0x30 <= d[d.len() - 1] as u32 <= 0x39);
    lemma_trimmed_fixed(d);
}

/// The concatenation of two strings.
pub fn concat(a: &str, b: &str) -> (r: String)
    ensures
        r@ == a@ + b@,
{
    let mut out = String::from_str(a);
    out.append(b);
    out
}

// ---------------------------------------------------------------------------
// Laws
// ---------------------------------------------------------------------------

/// A text contains each of its parts.
pub proof fn lemma_contains(a: Seq<char>, pat: Seq<char>, b: Seq<char>)
    ensures
        contains_text(a + pat + b, pat),
{
    let all = a + pat + b;
    assert(all.subrange(a.len() as int, (a.len() + pat.len()) as int) =~= pat);
    assert(occurs_at(all, pat, a.len() as int));
}

/// A text contains each of its parts, and what it contains is a part of it.
pub proof fn law_parts_are_contained(s: Seq<char>, a: Seq<char>, pat: Seq<char>, b: Seq<char>)
    ensures
        contains_text(a + pat + b, pat),
        contains_text(s, pat) ==> exists|x: Seq<char>, y: Seq<char>| s == #[trigger] (x + pat + y),
{
    lemma_contains(a, pat, b);
    if contains_text(s, pat) {
        let at = choose|at: int| occurs_at(s, pat, at);
        let x = s.take(at);
        let y = s.skip(at + pat.len());
        assert(s =~= x + pat + y);
    }
}

/// What stands behind a prefix is found, and only behind that prefix.
pub proof fn law_prefix_is_taken_off(s: Seq<char>, pat: Seq<char>, rest: Seq<char>)
    ensures
        after_prefix(pat + rest, pat) == Some(rest),
        after_prefix(s, pat) matches Some(r) ==> s == pat + r,
{
    let all = pat + rest;
    assert(all.subrange(0, pat.len() as int) =~= pat);
    assert(all.skip(pat.len() as int) =~= rest);
    if has_prefix(s, pat) {
        assert(s =~= s.subrange(0, pat.len() as int) + s.skip(pat.len() as int));
    }
}

/// Which characters below 128 are white space: the space and those from the tab to the
/// carriage return.
pub proof fn law_ascii_white_space(c: char)
    requires
        (c as u32) < 128,
    ensures
        is_white(c) <==> c == ' ' || '\t' <= c <= '\r',
        is_white(c) ==> digit_value(c, 16) is None,
{
}

proof fn lemma_trim_start_skips(w: Seq<char>, s: Seq<char>)
    requires
        forall|i: int| 0 <= i < w.len() ==> is_white(#[trigger] w[i]),
        s.len() == 0 || !is_white(s[0]),
    ensures
        trim_start(w + s) == s,
    decreases w.len(),
{
    if w.len() == 0 {
        assert(w + s =~= s);
    } else {
        assert(is_white(w[0]));
        assert((w + s)[0] == w[0]);
        assert((w + s).skip(1) =~= w.skip(1) + s);
        assert forall|i: int| 0 <= i < w.skip(1).len() implies is_white(#[trigger] w.skip(1)[i]) by {
            assert(is_white(w[i + 1]));
        }
        lemma_trim_start_skips(w.skip(1), s);
    }
}

proof fn lemma_trim_end_skips(s: Seq<char>, w: Seq<char>)
    requires
        forall|i: int| 0 <= i < w.len() ==> is_white(#[trigger] w[i]),
        s.len() == 0 || !is_white(s.last()),
    ensures
        trim_end(s + w) == s,
    decreases w.len(),
{
    if w.len() == 0 {
        assert(s + w =~= s);
    } else {
        assert(is_white(w[w.len() - 1]));
        assert((s + w).last() == w.last());
        assert((s + w).drop_last() =~= s + w.drop_last());
        assert forall|i: int| 0 <= i < w.drop_last().len() implies is_white(
            #[trigger] w.drop_last()[i],
        ) by {
            assert(is_white(w[i]));
        }
        lemma_trim_end_skips(s, w.drop_last());
    }
}

/// Trimming takes the white space off both ends, and nothing else.
pub proof fn law_white_space_is_trimmed(before: Seq<char>, s: Seq<char>, after: Seq<char>)
    requires
        forall|i: int| 0 <= i < before.len() ==> is_white(#[trigger] before[i]),
        forall|i: int| 0 <= i < after.len() ==> is_white(#[trigger] after[i]),
        s.len() == 0 || (!is_white(s[0]) && !is_white(s.last())),
    ensures
        trimmed(before + s + after) == s,
{
    let white = before + after;
    if s.len() == 0 {
        assert forall|i: int| 0 <= i < white.len() implies is_white(#[trigger] white[i]) by {
            if i < before.len() {
                assert(is_white(before[i]));
            } else {
                assert(is_white(after[i - before.len()]));
            }
        }
        assert(before + s + after =~= white + s);
        lemma_trim_start_skips(white, s);
    } else {
        assert(before + s + after =~= before + (s + after));
        assert((s + after)[0] == s[0]);
        lemma_trim_start_skips(before, s + after);
        lemma_trim_end_skips(s, after);
    }
}

proof fn lemma_split_append(a: Seq<char>, c: char, b: Seq<char>, p: spec_fn(char) -> bool)
    requires
        p(c),
    ensures
        split_by(a + seq![c] + b, p) == split_by(a, p) + split_by(b, p),
    decreases b.len(),
{
    let s = a + seq![c] + b;
    let first = split_by(a, p);
    if b.len() == 0 {
        assert(s.drop_last() =~= a);
        assert(s.last() == c);
        assert(split_by(b, p) =~= seq![Seq::<char>::empty()]);
        assert(split_by(s, p) =~= first + split_by(b, p));
    } else {
        lemma_split_append(a, c, b.drop_last(), p);
        lemma_split_nonempty(b.drop_last(), p);
        let second = split_by(b.drop_last(), p);
        assert(s.drop_last() =~= a + seq![c] + b.drop_last());
        assert(s.last() == b.last());
        assert((first + second).drop_last() =~= first + second.drop_last());
        assert((first + second).last() == second.last());
        assert(split_by(s, p) =~= first + split_by(b, p));
    }
}

/// A separator splits: the pieces are those before it and those behind it. Text without
/// a separator is one piece.
pub proof fn law_separators_split(a: Seq<char>, sep: char, b: Seq<char>)
    ensures
        split_at_char(a + seq![sep] + b, sep) == split_at_char(a, sep) + split_at_char(b, sep),
        !a.contains(sep) ==> split_at_char(a, sep) == seq![a],
{
    lemma_split_append(a, sep, b, only(sep));
    if !a.contains(sep) {
        assert forall|i: int| 0 <= i < a.len() implies !only(sep)(a[i]) by {
            assert(a.contains(a[i]));
        }
        lemma_split_whole(a, only(sep));
    }
}

proof fn lemma_non_empty_append(a: Seq<Seq<char>>, b: Seq<Seq<char>>)
    ensures
        non_empty(a + b) == non_empty(a) + non_empty(b),
    decreases b.len(),
{
    if b.len() == 0 {
        assert(a + b =~= a);
        assert(non_empty(a) + non_empty(b) =~= non_empty(a));
    } else {
        lemma_non_empty_append(a, b.drop_last());
        assert((a + b).drop_last() =~= a + b.drop_last());
        assert((a + b).last() == b.last());
        assert(non_empty(a + b) =~= non_empty(a) + non_empty(b));
    }
}

/// White space separates words, however much of it there is: the words are those before
/// a white space character and those behind it. Text without white space is one word,
/// or none if it is empty.
pub proof fn law_white_space_separates_words(a: Seq<char>, c: char, b: Seq<char>)
    requires
        is_white(c),
    ensures
        words(a + seq![c] + b) == words(a) + words(b),
        (forall|i: int| 0 <= i < a.len() ==> !is_white(#[trigger] a[i])) ==> words(a) == (
        if a.len() == 0 {
            Seq::empty()
        } else {
            seq![a]
        }),
{
    lemma_split_append(a, c, b, white_space());
    lemma_non_empty_append(split_by(a, white_space()), split_by(b, white_space()));
    if forall|i: int| 0 <= i < a.len() ==> !is_white(#[trigger] a[i]) {
        lemma_split_whole(a, white_space());
        let one = seq![a];
        assert(one.drop_last() =~= Seq::<Seq<char>>::empty());
        assert(non_empty(one.drop_last()) =~= Seq::<Seq<char>>::empty());
        assert(one.last() == a);
        assert(words(a) =~= (if a.len() == 0 {
            Seq::<Seq<char>>::empty()
        } else {
            one
        }));
    }
}

/// Lines end at a newline, with or without a carriage return before it; the last one may
/// lack it. Nothing is a line of its own where the text is over.
pub proof fn law_newlines_end_lines(a: Seq<char>, line: Seq<char>, b: Seq<char>)
    requires
        !line.contains('\n'),
    ensures
        lines(a + seq!['\n'] + b) == lines(a + seq!['\n']) + lines(b),
        lines(Seq::empty()) == Seq::<Seq<char>>::empty(),
        line.len() > 0 ==> lines(line) == seq![line],
        line.len() == 0 || line.last() != '\r' ==> lines(line + seq!['\n']) == seq![line],
        lines(line + seq!['\r', '\n']) == seq![line],
{
    let nl = '\n';
    let none = Seq::<char>::empty();
    law_separators_split(a, nl, b);
    law_separators_split(a, nl, none);
    lemma_split_nonempty(a, only(nl));
    lemma_split_nonempty(b, only(nl));
    assert(a + seq![nl] + none =~= a + seq![nl]);
    let ended = split_at_char(a, nl) + split_at_char(none, nl);
    assert(split_at_char(none, nl) =~= seq![none]);
    assert(lines(a + seq![nl] + b) =~= lines(a + seq![nl]) + lines(b));
    assert(lines(none) =~= Seq::<Seq<char>>::empty());
    law_separators_split(line, nl, none);
    assert(line + seq![nl] + none =~= line + seq![nl]);
    assert(lines(line + seq![nl]) =~= seq![without_cr(line)]);
    if line.len() > 0 {
        assert(lines(line) =~= seq![line]);
    }
    let cr = line.push('\r');
    assert(!cr.contains(nl)) by {
        assert forall|i: int| 0 <= i < cr.len() implies cr[i] != nl by {
            if i < line.len() {
                assert(line.contains(line[i]));
            }
        }
    }
    law_separators_split(cr, nl, none);
    assert(cr + seq![nl] + none =~= line + seq!['\r', nl]);
    assert(cr.drop_last() =~= line);
    assert(lines(line + seq!['\r', nl]) =~= seq![without_cr(cr)]);
}

/// Joining and splitting are inverse: texts that are joined with a separator that none
/// of them holds are the pieces of the result.
pub proof fn law_joined_texts_split(parts: Seq<Seq<char>>, sep: char)
    requires
        parts.len() > 0,
        forall|i: int| 0 <= i < parts.len() ==> !(#[trigger] parts[i]).contains(sep),
    ensures
        split_at_char(joined(parts, seq![sep]), sep) == parts,
    decreases parts.len(),
{
    if parts.len() == 1 {
        assert(!parts[0].contains(sep));
        law_separators_split(parts[0], sep, parts[0]);
        assert(seq![parts[0]] =~= parts);
    } else {
        let front = parts.drop_last();
        assert forall|i: int| 0 <= i < front.len() implies !(#[trigger] front[i]).contains(
            sep,
        ) by {
            assert(!parts[i].contains(sep));
        }
        law_joined_texts_split(front, sep);
        assert(!parts[parts.len() - 1].contains(sep));
        law_separators_split(joined(front, seq![sep]), sep, parts.last());
        law_separators_split(parts.last(), sep, parts.last());
        assert(front + seq![parts.last()] =~= parts);
    }
}

/// The digits stand for their values, in decimal and in hexadecimal, large and small;
/// no other character is a digit.
pub proof fn law_digits_have_their_values(c: char, d: nat)
    ensures
        digit_value(c, 10) == Some(d) <==> d < 10 && c as u32 == '0' as u32 + d,
        digit_value(c, 16) == Some(d) <==> (d < 10 && c as u32 == '0' as u32 + d) || (10 <= d < 16
            && (c as u32 == 'a' as u32 + (d - 10) || c as u32 == 'A' as u32 + (d - 10))),
{
}

/// Digits are positional: each digit that follows multiplies by the radix and adds its
/// value, a sign in front changes nothing, and a text is a number only if it has a digit
/// and nothing but digits.
pub proof fn law_numbers_are_positional(s: Seq<char>, c: char, radix: nat, v: nat, d: nat)
    requires
        2 <= radix <= 36,
        s.len() > 0 && s[0] != '+',
    ensures
        unsigned_value(s, radix) == Some(v) && digit_value(c, radix) == Some(d) ==> unsigned_value(
            s.push(c),
            radix,
        ) == Some(v * radix + d),
        unsigned_value(seq![c], radix) == (if c == '+' {
            None
        } else {
            digit_value(c, radix)
        }),
        unsigned_value(seq!['+'] + s, radix) == digits_value(s, radix),
        unsigned_value(s, radix) is Some <==> (forall|i: int|
            0 <= i < s.len() ==> digit_value(#[trigger] s[i], radix) is Some),
        unsigned_value(Seq::empty(), radix) is None,
{
    assert(s.push(c).drop_last() =~= s);
    assert(s.push(c)[0] == s[0]);
    let one = seq![c];
    assert(one.drop_last() =~= Seq::<char>::empty());
    assert(digits_value(one.drop_last(), radix) == Some(0nat));
    assert(0 * radix == 0) by (nonlinear_arith);
    if c == '+' {
        assert(one.skip(1) =~= Seq::<char>::empty());
    }
    assert((seq!['+'] + s).skip(1) =~= s);
    lemma_all_digits(s, radix);
}

/// A text is a number if all its characters are digits.
pub proof fn lemma_all_digits(s: Seq<char>, radix: nat)
    ensures
        digits_value(s, radix) is Some <==> (forall|i: int|
            0 <= i < s.len() ==> digit_value(#[trigger] s[i], radix) is Some),
    decreases s.len(),
{
    if s.len() > 0 {
        let front = s.drop_last();
        lemma_all_digits(front, radix);
        if digits_value(s, radix) is Some {
            assert forall|i: int| 0 <= i < s.len() implies digit_value(
                #[trigger] s[i],
                radix,
            ) is Some by {
                if i < front.len() {
                    assert(s[i] == front[i]);
                }
            }
        } else if forall|i: int| 0 <= i < s.len() ==> digit_value(#[trigger] s[i], radix) is Some {
            assert(digit_value(s[s.len() - 1], radix) is Some);
            assert forall|i: int| 0 <= i < front.len() implies digit_value(
                #[trigger] front[i],
                radix,
            ) is Some by {
                assert(digit_value(s[i], radix) is Some);
            }
        }
    }
}

/// A number is written with its decimal digits: the last one is the remainder by ten,
/// and those before it are the quotient, unless that is zero.
pub proof fn law_decimal_digits(n: nat)
    ensures
        decimal(n).last() as u32 == '0' as u32 + n % 10,
        n < 10 ==> decimal(n).len() == 1,
        n >= 10 ==> decimal(n).drop_last() == decimal(n / 10),
{
    if n >= 10 {
        assert(decimal(n).drop_last() =~= decimal(n / 10));
    }
}

/// A signed number that was written is read back, and a number above zero is written
/// without a sign.
pub proof fn law_signed_numbers_are_read_back(n: i64)
    ensures
        as_i64(signed_value(signed_decimal(n as int))) == Some(n),
        n >= 0 ==> signed_decimal(n as int) == decimal(n as nat),
        n < 0 ==> signed_decimal(n as int)[0] == '-',
{
    reveal_strlit("-");
    if n < 0 {
        let d = decimal((-n) as nat);
        lemma_decimal_digits((-n) as nat);
        assert(("-"@ + d).skip(1) =~= d);
    } else {
        let d = decimal(n as nat);
        lemma_decimal_digits(n as nat);
        assert(0x30 <= d[0] as u32 <= 0x39);
    }
}

/// Where a character stands first: there, and nowhere before.
pub proof fn law_first_place(a: Seq<char>, c: char, b: Seq<char>)
    requires
        !a.contains(c),
    ensures
        first_of(a + seq![c] + b, c) == Some(a.len() as int),
        first_of(a, c) is None,
{
    let s = a + seq![c] + b;
    assert forall|k: int| 0 <= k < a.len() implies s[k] != c && a[k] != c by {
        assert(a.contains(a[k]));
    }
    lemma_first_of(s, c, a.len() as int);
    lemma_first_of(a, c, a.len() as int);
}

/// Suffixes are taken off until none is left.
pub proof fn law_suffixes_are_taken_off(s: Seq<char>, pat: Seq<char>)
    requires
        pat.len() > 0,
    ensures
        without_suffixes(s + pat, pat) == without_suffixes(s, pat),
        !has_suffix(without_suffixes(s, pat), pat),
        !has_suffix(s, pat) ==> without_suffixes(s, pat) == s,
        has_suffix(s + pat, pat),
    decreases s.len(),
{
    let all = s + pat;
    assert(all.subrange(all.len() - pat.len(), all.len() - pat.len() + pat.len()) =~= pat);
    assert(all.take(all.len() - pat.len()) =~= s);
    if has_suffix(s, pat) {
        law_suffixes_are_taken_off(s.take(s.len() - pat.len()), pat);
    }
}

/// Leading characters are taken off until another one stands in front.
pub proof fn law_leading_characters_are_taken_off(s: Seq<char>, c: char)
    ensures
        without_leading(seq![c] + s, c) == without_leading(s, c),
        s.len() == 0 || s[0] != c ==> without_leading(s, c) == s,
{
    assert((seq![c] + s).skip(1) =~= s);
}

} // verus!
