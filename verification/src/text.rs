//! Text as sequences of characters: the model that the contracts of this
//! crate speak in, and the executable helpers that compute on it.

use vstd::prelude::*;
use vstd::seq_lib::{to_multiset_build, to_multiset_remove};
use vstd::std_specs::iter::IteratorSpec;
use vstd::string::*;

verus! {

/// `String::push` appends one character to the end of the string.
pub assume_specification[ String::push ](s: &mut String, c: char)
    ensures
        final(s)@ == old(s)@.push(c),
;

/// The index of the first `c` in `s`, or `s.len()` where there is none.
pub open spec fn position(s: Seq<char>, c: char) -> int
    decreases s.len(),
{
    if s.len() == 0 || s[0] == c {
        0
    } else {
        1 + position(s.skip(1), c)
    }
}

/// The pieces of `s` between occurrences of `sep`. There is always at least
/// one piece; an empty `s` gives one empty piece.
pub open spec fn split(s: Seq<char>, sep: char) -> Seq<Seq<char>>
    decreases s.len(),
{
    let i = position(s, sep);
    if 0 <= i < s.len() {
        seq![s.take(i)] + split(s.skip(i + 1), sep)
    } else {
        seq![s]
    }
}

/// The text of an optional string.
pub open spec fn opt_text(s: Option<String>) -> Option<Seq<char>> {
    match s {
        Some(s) => Some(s@),
        None => None,
    }
}

/// The text of an optional reference to a string.
pub open spec fn opt_ref_text(s: Option<&String>) -> Option<Seq<char>> {
    match s {
        Some(s) => Some(s@),
        None => None,
    }
}

/// The views of a sequence of character vectors.
pub open spec fn views(r: Seq<Vec<char>>) -> Seq<Seq<char>> {
    Seq::new(r.len(), |i: int| r[i]@)
}

/// The views of a sequence of strings.
pub open spec fn string_views(r: Seq<String>) -> Seq<Seq<char>> {
    Seq::new(r.len(), |i: int| r[i]@)
}

/// `c` with an ASCII capital letter replaced by its small letter.
pub open spec fn lower_char(c: char) -> char {
    if 'A' <= c && c <= 'Z' {
        ((c as u8) + 32) as char
    } else {
        c
    }
}

/// `s` with every ASCII capital letter replaced by its small letter.
pub open spec fn ascii_lower(s: Seq<char>) -> Seq<char> {
    Seq::new(s.len(), |i: int| lower_char(s[i]))
}

/// Equality up to the case of ASCII letters.
pub open spec fn eq_ignore_case(a: Seq<char>, b: Seq<char>) -> bool {
    ascii_lower(a) == ascii_lower(b)
}

/// Space and horizontal tab: the optional whitespace of HTTP field values.
pub open spec fn is_blank(c: char) -> bool {
    c == ' ' || c == '\t'
}

/// `s` without its leading blanks.
pub open spec fn trim_start(s: Seq<char>) -> Seq<char>
    decreases s.len(),
{
    if s.len() > 0 && is_blank(s[0]) {
        trim_start(s.skip(1))
    } else {
        s
    }
}

/// `s` without its trailing blanks.
pub open spec fn trim_end(s: Seq<char>) -> Seq<char>
    decreases s.len(),
{
    if s.len() > 0 && is_blank(s.last()) {
        trim_end(s.drop_last())
    } else {
        s
    }
}

/// `s` without leading and trailing blanks.
pub open spec fn trim(s: Seq<char>) -> Seq<char> {
    trim_end(trim_start(s))
}

/// `s` begins with `prefix`.
pub open spec fn starts_with(s: Seq<char>, prefix: Seq<char>) -> bool {
    prefix.len() <= s.len() && s.take(prefix.len() as int) == prefix
}

/// What `position` returns lies within `s`, nothing before it is `c`, and
/// where it is an index of `s` the character there is `c`.
pub proof fn lemma_position(s: Seq<char>, c: char)
    ensures
        0 <= position(s, c) <= s.len(),
        forall|k: int| 0 <= k < position(s, c) ==> s[k] != c,
        position(s, c) < s.len() ==> s[position(s, c)] == c,
    decreases s.len(),
{
    if s.len() == 0 || s[0] == c {
    } else {
        let t = s.skip(1);
        lemma_position(t, c);
        assert forall|k: int| 0 <= k < position(s, c) implies s[k] != c by {
            if k > 0 {
                assert(t[k - 1] == s[k]);
            }
        }
        if position(s, c) < s.len() {
            assert(t[position(t, c)] == s[position(t, c) + 1]);
        }
    }
}

/// An index with no `c` before it, which holds `c` or is the end of `s`, is
/// the position of `c`.
pub proof fn lemma_position_is(s: Seq<char>, c: char, j: int)
    requires
        0 <= j <= s.len(),
        forall|k: int| 0 <= k < j ==> s[k] != c,
        j == s.len() || s[j] == c,
    ensures
        position(s, c) == j,
    decreases s.len(),
{
    if s.len() == 0 || s[0] == c {
    } else {
        let t = s.skip(1);
        assert forall|k: int| 0 <= k < j - 1 implies t[k] != c by {
            assert(t[k] == s[k + 1]);
        }
        lemma_position_is(t, c, j - 1);
    }
}

/// A sequence without `sep` is its own single piece.
pub proof fn lemma_split_none(s: Seq<char>, sep: char)
    requires
        forall|k: int| 0 <= k < s.len() ==> s[k] != sep,
    ensures
        split(s, sep) == seq![s],
{
    lemma_position_is(s, sep, s.len() as int);
}

/// Splitting never gives an empty list, and no piece holds the separator.
pub proof fn lemma_split_pieces(s: Seq<char>, sep: char)
    ensures
        split(s, sep).len() >= 1,
        forall|i: int, k: int|
            0 <= i < split(s, sep).len() && 0 <= k < split(s, sep)[i].len() ==> split(
                s,
                sep,
            )[i][k] != sep,
    decreases s.len(),
{
    let i = position(s, sep);
    lemma_position(s, sep);
    if 0 <= i < s.len() {
        lemma_split_pieces(s.skip(i + 1), sep);
        let rest = split(s.skip(i + 1), sep);
        assert forall|a: int, k: int|
            0 <= a < split(s, sep).len() && 0 <= k < split(s, sep)[a].len() implies split(
            s,
            sep,
        )[a][k] != sep by {
            if a == 0 {
                assert(split(s, sep)[0] == s.take(i));
            } else {
                assert(split(s, sep)[a] == rest[a - 1]);
            }
        }
    } else {
    }
}

/// Splitting two texts joined by the separator gives the pieces of the
/// first, followed by the pieces of the second.
pub proof fn lemma_split_joined(s: Seq<char>, t: Seq<char>, sep: char)
    ensures
        split(s + seq![sep] + t, sep) == split(s, sep) + split(t, sep),
    decreases s.len(),
{
    let whole = s + seq![sep] + t;
    let i = position(s, sep);
    lemma_position(s, sep);
    if i < s.len() {
        assert forall|k: int| 0 <= k < i implies whole[k] != sep by {
            assert(whole[k] == s[k]);
        }
        assert(whole[i] == s[i]);
        lemma_position_is(whole, sep, i);
        lemma_split_joined(s.skip(i + 1), t, sep);
        assert(whole.skip(i + 1) =~= s.skip(i + 1) + seq![sep] + t);
        assert(whole.take(i) =~= s.take(i));
        assert(split(whole, sep) =~= seq![s.take(i)] + (split(s.skip(i + 1), sep) + split(t, sep)));
        assert(split(s, sep) + split(t, sep) =~= seq![s.take(i)] + (split(s.skip(i + 1), sep)
            + split(t, sep)));
    } else {
        assert forall|k: int| 0 <= k < s.len() implies whole[k] != sep by {
            assert(whole[k] == s[k]);
        }
        assert(whole[s.len() as int] == sep);
        lemma_position_is(whole, sep, s.len() as int);
        assert(whole.take(s.len() as int) =~= s);
        assert(whole.skip(s.len() as int + 1) =~= t);
        assert(split(s, sep) == seq![s]);
    }
}

/// No piece of a text holds a character that the text does not hold.
pub proof fn lemma_split_within(s: Seq<char>, sep: char, c: char)
    requires
        forall|k: int| 0 <= k < s.len() ==> s[k] != c,
    ensures
        forall|i: int, k: int|
            0 <= i < split(s, sep).len() && 0 <= k < split(s, sep)[i].len() ==> #[trigger] split(
                s,
                sep,
            )[i][k] != c,
    decreases s.len(),
{
    let i = position(s, sep);
    lemma_position(s, sep);
    if 0 <= i < s.len() {
        let rest = s.skip(i + 1);
        assert forall|k: int| 0 <= k < rest.len() implies rest[k] != c by {
            assert(rest[k] == s[k + i + 1]);
        }
        lemma_split_within(rest, sep, c);
        let pieces = split(rest, sep);
        assert forall|a: int, k: int|
            0 <= a < split(s, sep).len() && 0 <= k < split(s, sep)[a].len() implies #[trigger] split(
            s,
            sep,
        )[a][k] != c by {
            if a == 0 {
                assert(split(s, sep)[0] == s.take(i));
            } else {
                assert(split(s, sep)[a] == pieces[a - 1]);
            }
        }
    }
}

/// The characters of `s`, in order.
pub fn chars_of(s: &str) -> (v: Vec<char>)
    ensures
        v@ == s@,
{
    broadcast use group_string_axioms;

    let mut it = s.chars();
    let mut v: Vec<char> = Vec::new();
    loop
        invariant
            v@ + it.remaining() == s@,
            it.obeys_prophetic_iter_laws(),
            it.decrease() is Some,
        ensures
            v@ == s@,
        decreases it.decrease()->0,
    {
        match it.next() {
            Some(c) => {
                v.push(c);
            },
            None => {
                break ;
            },
        }
    }
    v
}

/// The string made of the characters of `v`, in order.
pub fn string_of(v: &[char]) -> (s: String)
    ensures
        s@ == v@,
{
    let mut s = String::new();
    let mut i: usize = 0;
    while i < v.len()
        invariant
            i <= v.len(),
            s@ == v@.subrange(0, i as int),
        decreases v.len() - i,
    {
        s.push(v[i]);
        i += 1;
    }
    s
}

/// The characters of `v` from index `from` up to, not including, `to`.
pub fn copy_range(v: &[char], from: usize, to: usize) -> (r: Vec<char>)
    requires
        from <= to <= v.len(),
    ensures
        r@ == v@.subrange(from as int, to as int),
{
    let mut r: Vec<char> = Vec::new();
    let mut i: usize = from;
    while i < to
        invariant
            from <= i <= to <= v.len(),
            r@ == v@.subrange(from as int, i as int),
        decreases to - i,
    {
        r.push(v[i]);
        i += 1;
    }
    r
}

/// Appends the characters of `src` to `dst`.
pub fn append(dst: &mut Vec<char>, src: &[char])
    ensures
        final(dst)@ == old(dst)@ + src@,
{
    let mut i: usize = 0;
    while i < src.len()
        invariant
            i <= src.len(),
            dst@ == old(dst)@ + src@.subrange(0, i as int),
        decreases src.len() - i,
    {
        dst.push(src[i]);
        i += 1;
    }
}

/// The index of the first `c` at or after `from`, or the length of `v`.
pub fn find_from(v: &[char], from: usize, c: char) -> (j: usize)
    requires
        from <= v.len(),
    ensures
        from <= j <= v.len(),
        j == from + position(v@.skip(from as int), c),
{
    let mut j: usize = from;
    while j < v.len() && v[j] != c
        invariant
            from <= j <= v.len(),
            forall|k: int| from <= k < j ==> v@[k] != c,
        decreases v.len() - j,
    {
        j += 1;
    }
    proof {
        let t = v@.skip(from as int);
        assert forall|k: int| 0 <= k < j - from implies t[k] != c by {
            assert(t[k] == v@[k + from]);
        }
        lemma_position_is(t, c, j - from);
    }
    j
}

/// Splits `v` at every `sep`.
pub fn split_chars(v: &[char], sep: char) -> (r: Vec<Vec<char>>)
    ensures
        views(r@) == split(v@, sep),
{
    let mut r: Vec<Vec<char>> = Vec::new();
    let mut start: usize = 0;
    proof {
        assert(v@.skip(0) == v@);
        assert(views(r@) + split(v@, sep) == split(v@, sep));
    }
    loop
        invariant_except_break
            start <= v.len(),
            split(v@, sep) == views(r@) + split(v@.skip(start as int), sep),
        ensures
            views(r@) == split(v@, sep),
        decreases v.len() - start,
    {
        let j = find_from(v, start, sep);
        let piece = copy_range(v, start, j);
        let ghost before = views(r@);
        let ghost rest = v@.skip(start as int);
        proof {
            lemma_position(rest, sep);
            assert(rest.take(j - start) == v@.subrange(start as int, j as int));
        }
        r.push(piece);
        if j == v.len() {
            proof {
                assert(split(rest, sep) == seq![rest]);
                assert(rest == v@.subrange(start as int, j as int));
                assert(views(r@) == before + seq![rest]);
            }
            break ;
        }
        proof {
            assert(rest.skip(j - start + 1) == v@.skip(j + 1));
            assert(views(r@) == before + seq![rest.take(j - start)]);
            assert(split(v@, sep) == views(r@) + split(v@.skip(j + 1), sep));
        }
        start = j + 1;
    }
    r
}

/// The small letter of an ASCII capital; any other character unchanged.
pub fn to_lower_char(c: char) -> (r: char)
    ensures
        r == lower_char(c),
{
    if 'A' <= c && c <= 'Z' {
        ((c as u8) + 32) as char
    } else {
        c
    }
}

/// Compares two texts up to the case of ASCII letters.
pub fn equals_ignore_case(a: &[char], b: &[char]) -> (r: bool)
    ensures
        r == eq_ignore_case(a@, b@),
{
    if a.len() != b.len() {
        assert(ascii_lower(a@).len() != ascii_lower(b@).len());
        return false;
    }
    let mut i: usize = 0;
    while i < a.len()
        invariant
            i <= a.len(),
            a.len() == b.len(),
            forall|k: int| 0 <= k < i ==> lower_char(a@[k]) == lower_char(b@[k]),
        decreases a.len() - i,
    {
        if to_lower_char(a[i]) != to_lower_char(b[i]) {
            assert(ascii_lower(a@)[i as int] != ascii_lower(b@)[i as int]);
            return false;
        }
        i += 1;
    }
    assert(ascii_lower(a@) =~= ascii_lower(b@));
    true
}

/// Compares two texts character by character.
pub fn equals(a: &[char], b: &[char]) -> (r: bool)
    ensures
        r == (a@ == b@),
{
    if a.len() != b.len() {
        return false;
    }
    let mut i: usize = 0;
    while i < a.len()
        invariant
            i <= a.len(),
            a.len() == b.len(),
            forall|k: int| 0 <= k < i ==> a@[k] == b@[k],
        decreases a.len() - i,
    {
        if a[i] != b[i] {
            return false;
        }
        i += 1;
    }
    assert(a@ =~= b@);
    true
}

/// Removes blanks from both ends of `v`.
pub fn trim_chars(v: &[char]) -> (r: Vec<char>)
    ensures
        r@ == trim(v@),
{
    let mut a: usize = 0;
    assert(v@.skip(0) == v@);
    while a < v.len() && (v[a] == ' ' || v[a] == '\t')
        invariant
            a <= v.len(),
            trim_start(v@) == trim_start(v@.skip(a as int)),
        decreases v.len() - a,
    {
        proof {
            let t = v@.skip(a as int);
            assert(t[0] == v@[a as int]);
            assert(t.skip(1) == v@.skip(a + 1));
        }
        a += 1;
    }
    let ghost t = v@.skip(a as int);
    assert(trim_start(v@) == t) by {
        if a < v.len() {
            assert(t[0] == v@[a as int]);
        }
    }
    let mut b: usize = v.len();
    assert(t.take(b - a) == t);
    while b > a && (v[b - 1] == ' ' || v[b - 1] == '\t')
        invariant
            a <= b <= v.len(),
            t == v@.skip(a as int),
            trim_end(t) == trim_end(t.take(b - a)),
        decreases b,
    {
        proof {
            let u = t.take(b - a);
            assert(u.last() == v@[b - 1]);
            assert(u.drop_last() == t.take(b - 1 - a));
        }
        b -= 1;
    }
    proof {
        let u = t.take(b - a);
        if b > a {
            assert(u.last() == v@[b - 1]);
        }
        assert(trim_end(u) == u);
        assert(u == v@.subrange(a as int, b as int));
    }
    copy_range(v, a, b)
}

/// Whether `s` begins with `prefix`.
pub fn has_prefix(s: &[char], prefix: &[char]) -> (r: bool)
    ensures
        r == starts_with(s@, prefix@),
{
    if prefix.len() > s.len() {
        return false;
    }
    let mut i: usize = 0;
    while i < prefix.len()
        invariant
            i <= prefix.len() <= s.len(),
            forall|k: int| 0 <= k < i ==> s@[k] == prefix@[k],
        decreases prefix.len() - i,
    {
        if s[i] != prefix[i] {
            assert(s@.take(prefix.len() as int)[i as int] != prefix@[i as int]);
            return false;
        }
        i += 1;
    }
    assert(s@.take(prefix.len() as int) =~= prefix@);
    true
}

/// The character of a decimal digit.
pub open spec fn digit(d: nat) -> char {
    (48 + d) as u8 as char
}

/// A number in decimal notation, without leading zeros.
pub open spec fn decimal(n: nat) -> Seq<char>
    decreases n,
{
    if n < 10 {
        seq![digit(n)]
    } else {
        decimal(n / 10).push(digit(n % 10))
    }
}

/// Writes a number in decimal notation.
pub fn decimal_of(n: u64) -> (r: Vec<char>)
    ensures
        r@ == decimal(n as nat),
    decreases n,
{
    if n < 10 {
        let mut r: Vec<char> = Vec::new();
        r.push((48 + n as u8) as char);
        assert(r@ == seq![digit(n as nat)]);
        r
    } else {
        let mut r = decimal_of(n / 10);
        r.push((48 + (n % 10) as u8) as char);
        r
    }
}

/// Whether two strings hold the same text.
pub fn same_text(a: &str, b: &str) -> (r: bool)
    ensures
        r == (a@ == b@),
{
    let x = chars_of(a);
    let y = chars_of(b);
    equals(x.as_slice(), y.as_slice())
}

/// Lexicographic order of texts by their characters: how strings compare.
pub open spec fn text_le(a: Seq<char>, b: Seq<char>) -> bool
    decreases a.len(),
{
    if a.len() == 0 {
        true
    } else if b.len() == 0 {
        false
    } else if a[0] != b[0] {
        a[0] < b[0]
    } else {
        text_le(a.skip(1), b.skip(1))
    }
}

/// No text stands before a smaller one.
pub open spec fn is_sorted(s: Seq<Seq<char>>) -> bool {
    forall|i: int, j: int| 0 <= i <= j < s.len() ==> text_le(s[i], s[j])
}

/// Every text stands before or beside itself.
pub proof fn lemma_text_le_reflexive(a: Seq<char>)
    ensures
        text_le(a, a),
    decreases a.len(),
{
    if a.len() > 0 {
        lemma_text_le_reflexive(a.skip(1));
    }
}

/// Of two texts one stands before or beside the other.
pub proof fn lemma_text_le_total(a: Seq<char>, b: Seq<char>)
    ensures
        text_le(a, b) || text_le(b, a),
    decreases a.len(),
{
    if a.len() > 0 && b.len() > 0 && a[0] == b[0] {
        lemma_text_le_total(a.skip(1), b.skip(1));
    }
}

/// The order of texts is transitive.
pub proof fn lemma_text_le_transitive(a: Seq<char>, b: Seq<char>, c: Seq<char>)
    requires
        text_le(a, b),
        text_le(b, c),
    ensures
        text_le(a, c),
    decreases a.len(),
{
    if a.len() > 0 && b.len() > 0 && c.len() > 0 && a[0] == b[0] && b[0] == c[0] {
        lemma_text_le_transitive(a.skip(1), b.skip(1), c.skip(1));
    }
}

/// Whether `a` stands before or beside `b` in the order of texts.
pub fn text_le_exec(a: &[char], b: &[char]) -> (r: bool)
    ensures
        r == text_le(a@, b@),
{
    let mut i: usize = 0;
    assert(a@.skip(0) =~= a@ && b@.skip(0) =~= b@);
    while i < a.len() && i < b.len() && a[i] == b[i]
        invariant
            i <= a.len(),
            i <= b.len(),
            text_le(a@, b@) == text_le(a@.skip(i as int), b@.skip(i as int)),
        decreases a.len() - i,
    {
        proof {
            let x = a@.skip(i as int);
            let y = b@.skip(i as int);
            assert(x[0] == a@[i as int] && y[0] == b@[i as int]);
            assert(x.skip(1) =~= a@.skip(i + 1));
            assert(y.skip(1) =~= b@.skip(i + 1));
        }
        i += 1;
    }
    proof {
        let x = a@.skip(i as int);
        let y = b@.skip(i as int);
        if i < a.len() && i < b.len() {
            assert(x[0] == a@[i as int] && y[0] == b@[i as int]);
        }
    }
    if i == a.len() {
        true
    } else if i == b.len() {
        false
    } else {
        a[i] < b[i]
    }
}

/// Sorts the strings into ascending order. Afterwards they are the strings
/// that were there before, each as often as before.
pub fn sort_strings(v: &mut Vec<String>)
    ensures
        is_sorted(string_views(final(v)@)),
        string_views(final(v)@).to_multiset() == string_views(old(v)@).to_multiset(),
{
    let mut out: Vec<String> = Vec::new();
    let mut i: usize = 0;
    assert(string_views(v@).take(0) =~= string_views(out@));
    while i < v.len()
        invariant
            i <= v.len(),
            is_sorted(string_views(out@)),
            string_views(out@).to_multiset() == string_views(v@).take(i as int).to_multiset(),
        decreases v.len() - i,
    {
        let x = v[i].clone();
        let key = chars_of(x.as_str());
        let ghost before = string_views(out@);
        let mut p: usize = 0;
        while p < out.len() && text_le_exec(chars_of(out[p].as_str()).as_slice(), key.as_slice())
            invariant
                p <= out.len(),
                key@ == x@,
                before == string_views(out@),
                forall|k: int| 0 <= k < p ==> text_le(#[trigger] before[k], x@),
            decreases out.len() - p,
        {
            assert(before[p as int] == out@[p as int]@);
            p += 1;
        }
        proof {
            if p < out.len() {
                assert(before[p as int] == out@[p as int]@);
                lemma_text_le_total(before[p as int], x@);
            }
        }
        out.insert(p, x);
        proof {
            let after = string_views(out@);
            assert(after =~= before.insert(p as int, x@));
            assert forall|a: int, b: int| 0 <= a <= b < after.len() implies text_le(
                after[a],
                after[b],
            ) by {
                let a0 = if a < p {
                    a
                } else {
                    a - 1
                };
                let b0 = if b < p {
                    b
                } else {
                    b - 1
                };
                if a == p && b == p {
                    lemma_text_le_reflexive(x@);
                } else if a == p {
                    assert(after[b] == before[b0]);
                    if b0 > p {
                        lemma_text_le_transitive(x@, before[p as int], before[b0]);
                    }
                } else if b == p {
                    assert(after[a] == before[a0]);
                } else {
                    assert(after[a] == before[a0]);
                    assert(after[b] == before[b0]);
                }
            }
            let done = string_views(v@).take(i + 1);
            assert(done =~= string_views(v@).take(i as int).push(x@));
            to_multiset_build(string_views(v@).take(i as int), x@);
            assert(after.remove(p as int) =~= before);
            to_multiset_remove(after, p as int);
            assert(after.to_multiset() =~= before.to_multiset().insert(x@)) by {
                after.to_multiset_ensures();
                assert(after.contains(x@)) by {
                    assert(after[p as int] == x@);
                }
            }
        }
        i += 1;
    }
    assert(string_views(v@).take(v.len() as int) =~= string_views(v@));
    *v = out;
}

} // verus!
